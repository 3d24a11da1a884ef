use vstd::prelude::*;

use crate::normalize::{OcrImage, OcrPage, OcrResult};

verus! {

/// The answer to a file upload.
pub struct FileResponse {
    pub id: String,
    pub object: String,
    pub bytes: u64,
    pub created_at: u64,
    pub filename: String,
    pub purpose: String,
}

/// The answer to a request for a signed URL.
pub struct SignedUrlResponse {
    pub url: String,
}

/// An image as the recognition service returns it: the payload may be missing,
/// and may carry a data-URI prefix.
pub struct OCRImage {
    pub id: String,
    pub image_base64: Option<String>,
}

/// A page as the recognition service returns it.
pub struct OCRPage {
    pub index: u32,
    pub markdown: String,
    pub images: Vec<OCRImage>,
}

/// The document reference of a recognition request.
pub struct OCRDocumentUrl {
    pub doc_type: String,
    pub document_url: String,
}

/// A recognition request.
pub struct OCRRequest {
    pub model: String,
    pub document: OCRDocumentUrl,
    pub include_image_base64: bool,
}

/// The recognition backends that can be selected.
#[derive(PartialEq, Eq, Structural, Clone, Copy, Debug)]
pub enum ProviderKind {
    Mistral,
}

/// A provider identifier that names no known backend.
#[derive(PartialEq, Eq, Structural, Clone, Copy, Debug)]
pub enum ConfigError {
    UnknownProvider,
}

pub open spec fn mistral_id() -> Seq<char> {
    seq!['m', 'i', 's', 't', 'r', 'a', 'l']
}

/// The payload with everything up to and including its first comma removed; a
/// payload without a comma is kept whole.
pub open spec fn strip_prefix_spec(s: Seq<char>) -> Seq<char> {
    if exists|i: int| 0 <= i < s.len() && s[i] == ',' {
        let i = choose|i: int| 0 <= i < s.len() && s[i] == ',' && forall|j: int| 0 <= j < i ==> s[j] != ',';
        s.subrange(i + 1, s.len() as int)
    } else {
        s
    }
}

/// A raw image's view once standardised: kept only with a payload, prefix stripped.
pub open spec fn kept_images(images: Seq<OCRImage>) -> Seq<(Seq<char>, Seq<char>)>
    decreases images.len(),
{
    if images.len() == 0 {
        Seq::empty()
    } else {
        let im = images.last();
        let rest = kept_images(images.drop_last());
        match im.image_base64 {
            Some(b) => rest.push((im.id@, strip_prefix_spec(b@))),
            None => rest,
        }
    }
}

/// The model that recognition requests name.
pub open spec fn ocr_model() -> Seq<char> {
    seq!['m', 'i', 's', 't', 'r', 'a', 'l', '-', 'o', 'c', 'r', '-', 'l', 'a', 't', 'e', 's', 't']
}

/// The backend that an identifier selects.
pub fn resolve_provider(id: &str) -> (r: Result<ProviderKind, ConfigError>)
    ensures
        r == (if id@ == mistral_id() {
            Ok::<ProviderKind, ConfigError>(ProviderKind::Mistral)
        } else {
            Err::<ProviderKind, ConfigError>(ConfigError::UnknownProvider)
        }),
{
    proof {
        reveal_strlit("mistral");
    }
    let known = String::from_str("mistral");
    let given = String::from_str(id);
    assert(known@ =~= mistral_id());
    if given == known {
        Ok(ProviderKind::Mistral)
    } else {
        Err(ConfigError::UnknownProvider)
    }
}

/// The identifier under which a backend is selected.
pub fn provider_id(kind: ProviderKind) -> (r: &'static str)
    ensures
        r@ == mistral_id(),
{
    proof {
        reveal_strlit("mistral");
    }
    match kind {
        ProviderKind::Mistral => "mistral",
    }
}

/// The name under which a backend is shown.
pub fn provider_name(kind: ProviderKind) -> (r: &'static str)
    ensures
        r@ == seq!['M', 'i', 's', 't', 'r', 'a', 'l', ' ', 'A', 'I'],
{
    proof {
        reveal_strlit("Mistral AI");
    }
    match kind {
        ProviderKind::Mistral => "Mistral AI",
    }
}

/// The recognition request for a document at `document_url`, asking for image payloads.
pub fn ocr_request(document_url: String) -> (r: OCRRequest)
    ensures
        r.model@ == ocr_model(),
        r.document.doc_type@ == seq!['d', 'o', 'c', 'u', 'm', 'e', 'n', 't', '_', 'u', 'r', 'l'],
        r.document.document_url@ == document_url@,
        r.include_image_base64,
{
    proof {
        reveal_strlit("mistral-ocr-latest");
        reveal_strlit("document_url");
    }
    OCRRequest {
        model: String::from_str("mistral-ocr-latest"),
        document: OCRDocumentUrl { doc_type: String::from_str("document_url"), document_url },
        include_image_base64: true,
    }
}

/// A payload without its data-URI prefix: what follows the first comma, or the
/// whole payload where it has no comma.
pub fn strip_data_uri_prefix(b64: &str) -> (r: String)
    ensures
        r@ == strip_prefix_spec(b64@),
{
    let n = b64.unicode_len();
    let mut i: usize = 0;
    while i < n
        invariant
            n == b64@.len(),
            i <= n,
            forall|j: int| 0 <= j < i ==> b64@[j] != ',',
        decreases n - i,
    {
        if b64.get_char(i) == ',' {
            let ghost s = b64@;
            proof {
                let c = choose|c: int| 0 <= c < s.len() && s[c] == ',' && forall|j: int| 0 <= j < c ==> s[j] != ',';
                assert(0 <= i < s.len() && s[i as int] == ',' && forall|j: int| 0 <= j < i ==> s[j] != ',');
                if c < i {
                } else if c > i {
                    assert(s[i as int] != ',');
                }
                assert(c == i);
            }
            return b64.substring_char(i + 1, n).to_owned();
        }
        i = i + 1;
    }
    b64.to_owned()
}

/// The pages of a raw response in the library's own form: each page keeps its
/// index and Markdown, and of its images only those with a payload, prefix stripped.
pub fn standardize_pages(raw: Vec<OCRPage>) -> (r: OcrResult)
    ensures
        r.pages@.len() == raw@.len(),
        forall|i: int|
            0 <= i < raw@.len() ==> {
                &&& (#[trigger] r.pages@[i]).number == raw@[i].index as usize
                &&& r.pages@[i]@.0 == raw@[i].markdown@
                &&& r.pages@[i]@.1 == kept_images(raw@[i].images@)
            },
{
    let mut pages: Vec<OcrPage> = Vec::new();
    let mut i: usize = 0;
    while i < raw.len()
        invariant
            i <= raw@.len(),
            pages@.len() == i,
            forall|j: int|
                0 <= j < i ==> {
                    &&& (#[trigger] pages@[j]).number == raw@[j].index as usize
                    &&& pages@[j]@.0 == raw@[j].markdown@
                    &&& pages@[j]@.1 == kept_images(raw@[j].images@)
                },
        decreases raw.len() - i,
    {
        let p = &raw[i];
        let mut images: Vec<OcrImage> = Vec::new();
        let mut k: usize = 0;
        while k < p.images.len()
            invariant
                k <= p.images@.len(),
                images@.map_values(|im: OcrImage| im@) == kept_images(p.images@.subrange(0, k as int)),
            decreases p.images.len() - k,
        {
            let im = &p.images[k];
            let ghost before = images@;
            match &im.image_base64 {
                Some(b) => {
                    let payload = strip_data_uri_prefix(b.as_str());
                    images.push(OcrImage { id: im.id.clone(), base64: payload });
                    assert(images@.map_values(|m: OcrImage| m@) =~= before.map_values(|m: OcrImage| m@).push(
                        (im.id@, strip_prefix_spec(b@)),
                    ));
                },
                None => {},
            }
            k = k + 1;
            assert(p.images@.subrange(0, k as int).drop_last() =~= p.images@.subrange(0, k - 1));
        }
        assert(p.images@.subrange(0, k as int) =~= p.images@);
        let page = OcrPage {
            number: p.index as usize,
            markdown: p.markdown.clone(),
            images,
        };
        pages.push(page);
        i = i + 1;
    }
    OcrResult { pages }
}

/// An image without a payload is dropped: its placeholder is left as it is and
/// no file is written for it.
pub proof fn lemma_image_without_payload_dropped(im: OCRImage)
    requires
        im.image_base64 is None,
    ensures
        kept_images(seq![im]) == Seq::<(Seq<char>, Seq<char>)>::empty(),
{
    let s = seq![im];
    assert(s.drop_last() =~= Seq::<OCRImage>::empty());
    assert(s.last() == im);
    assert(kept_images(s.drop_last()) == Seq::<(Seq<char>, Seq<char>)>::empty());
    assert(kept_images(s) == kept_images(s.drop_last()));
}

} // verus!
