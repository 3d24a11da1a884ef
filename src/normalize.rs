use base64::Engine as _;
use vstd::prelude::*;

use crate::text::{
    decimal, is_digit, join, join_strings, lemma_decimal_digits, lemma_decimal_injective, lemma_no_occurrence_by_ends,
    lemma_replace_absent, push_decimal, replace_all, replace_str,
};

verus! {

/// An image that a provider returned, with its base64 payload.
pub struct OcrImage {
    pub id: String,
    pub base64: String,
}

/// One recognised page: its Markdown and the images it embeds.
pub struct OcrPage {
    pub number: usize,
    pub markdown: String,
    pub images: Vec<OcrImage>,
}

/// The pages of one recognised document, in order.
pub struct OcrResult {
    pub pages: Vec<OcrPage>,
}

/// An image file to be written under `images/`.
pub struct ImageFile {
    pub name: String,
    pub bytes: Vec<u8>,
}

/// The normalised output of one chunk: its partial Markdown file and its images.
pub struct ChunkOutput {
    pub file_name: String,
    pub markdown: String,
    pub images: Vec<ImageFile>,
}

/// An image payload that is not valid base64.
pub struct ImageDecodeError {
    pub image: String,
}

impl View for OcrImage {
    type V = (Seq<char>, Seq<char>);

    open spec fn view(&self) -> (Seq<char>, Seq<char>) {
        (self.id@, self.base64@)
    }
}

impl View for OcrPage {
    type V = (Seq<char>, Seq<(Seq<char>, Seq<char>)>);

    open spec fn view(&self) -> (Seq<char>, Seq<(Seq<char>, Seq<char>)>) {
        (self.markdown@, self.images@.map_values(|i: OcrImage| i@))
    }
}

impl View for OcrResult {
    type V = Seq<(Seq<char>, Seq<(Seq<char>, Seq<char>)>)>;

    open spec fn view(&self) -> Seq<(Seq<char>, Seq<(Seq<char>, Seq<char>)>)> {
        self.pages@.map_values(|p: OcrPage| p@)
    }
}

impl View for ImageFile {
    type V = (Seq<char>, Seq<u8>);

    open spec fn view(&self) -> (Seq<char>, Seq<u8>) {
        (self.name@, self.bytes@)
    }
}

/// The file name of an image: `{offset}_{local page}_{id}.png`.
pub open spec fn image_name(offset: nat, local: nat, id: Seq<char>) -> Seq<char> {
    decimal(offset) + seq!['_'] + decimal(local) + seq!['_'] + id + seq!['.', 'p', 'n', 'g']
}

/// The placeholder `![id](id)`.
pub open spec fn placeholder(id: Seq<char>) -> Seq<char> {
    seq!['!', '['] + id + seq![']', '('] + id + seq![')']
}

/// The placeholder `![id](/id)`.
pub open spec fn placeholder_slash(id: Seq<char>) -> Seq<char> {
    seq!['!', '['] + id + seq![']', '(', '/'] + id + seq![')']
}

/// The rewritten reference `![id](images/file)`.
pub open spec fn image_link(id: Seq<char>, file: Seq<char>) -> Seq<char> {
    seq!['!', '['] + id + seq![']', '(', 'i', 'm', 'a', 'g', 'e', 's', '/'] + file + seq![')']
}

/// Both placeholder spellings of `id` rewritten to the link to `file`.
pub open spec fn rewrite_image(md: Seq<char>, id: Seq<char>, file: Seq<char>) -> Seq<char> {
    replace_all(
        replace_all(md, placeholder(id), image_link(id, file)),
        placeholder_slash(id),
        image_link(id, file),
    )
}

/// A page's Markdown with the placeholders of each of its images rewritten, in order.
pub open spec fn page_text(
    md: Seq<char>,
    images: Seq<(Seq<char>, Seq<char>)>,
    offset: nat,
    local: nat,
) -> Seq<char>
    decreases images.len(),
{
    if images.len() == 0 {
        md
    } else {
        let id = images.last().0;
        rewrite_image(
            page_text(md, images.drop_last(), offset, local),
            id,
            image_name(offset, local, id),
        )
    }
}

/// `## Page {number}` and a blank line before the page's text.
pub open spec fn page_section(number: nat, text: Seq<char>) -> Seq<char> {
    seq!['#', '#', ' ', 'P', 'a', 'g', 'e', ' '] + decimal(number) + seq!['\n', '\n'] + text
}

pub open spec fn blank_line() -> Seq<char> {
    seq!['\n', '\n']
}

/// The sections of a chunk whose first page is global page `offset + 1`.
pub open spec fn chunk_sections(
    pages: Seq<(Seq<char>, Seq<(Seq<char>, Seq<char>)>)>,
    offset: nat,
) -> Seq<Seq<char>> {
    Seq::new(
        pages.len(),
        |i: int| page_section((offset + i + 1) as nat, page_text(pages[i].0, pages[i].1, offset, i as nat)),
    )
}

/// The partial Markdown of a chunk.
pub open spec fn chunk_markdown(
    pages: Seq<(Seq<char>, Seq<(Seq<char>, Seq<char>)>)>,
    offset: nat,
) -> Seq<char> {
    join(chunk_sections(pages, offset), blank_line())
}

/// The name of a chunk's partial file: `part_{offset}.md`.
pub open spec fn partial_name(offset: nat) -> Seq<char> {
    seq!['p', 'a', 'r', 't', '_'] + decimal(offset) + seq!['.', 'm', 'd']
}

/// The (file name, payload) of each image of a page, in order.
pub open spec fn page_image_entries(
    images: Seq<(Seq<char>, Seq<char>)>,
    offset: nat,
    local: nat,
) -> Seq<(Seq<char>, Seq<char>)> {
    images.map_values(|im: (Seq<char>, Seq<char>)| (image_name(offset, local, im.0), im.1))
}

/// The (file name, payload) of each image of a chunk, page by page.
pub open spec fn chunk_image_entries(
    pages: Seq<(Seq<char>, Seq<(Seq<char>, Seq<char>)>)>,
    offset: nat,
) -> Seq<(Seq<char>, Seq<char>)>
    decreases pages.len(),
{
    if pages.len() == 0 {
        Seq::empty()
    } else {
        chunk_image_entries(pages.drop_last(), offset) + page_image_entries(
            pages.last().1,
            offset,
            (pages.len() - 1) as nat,
        )
    }
}

/// What the standard base64 alphabet, with padding, decodes a text to; `None` where
/// the text is not valid base64.
pub uninterp spec fn standard_decoded(s: Seq<char>) -> Option<Seq<u8>>;

/// Every payload decodes.
pub open spec fn all_decode(entries: Seq<(Seq<char>, Seq<char>)>) -> bool {
    forall|k: int| 0 <= k < entries.len() ==> (#[trigger] standard_decoded(entries[k].1)) is Some
}

#[verifier::external_type_specification]
#[verifier::external_body]
pub struct ExDecodeError(base64::DecodeError);

/// Relies on base64's `Engine::decode` with the `general_purpose::STANDARD` engine:
/// the bytes that a text decodes to, or an error where it is not valid base64.
#[verifier::external_body]
fn decode_standard(s: &str) -> (r: Result<Vec<u8>, base64::DecodeError>)
    ensures
        match r {
            Ok(v) => standard_decoded(s@) == Some(v@),
            Err(_) => standard_decoded(s@) is None,
        },
{
    base64::engine::general_purpose::STANDARD.decode(s)
}

/// The file name of an image: `{offset}_{local}_{id}.png`.
pub fn image_file_name(offset: u64, local: u64, id: &str) -> (r: String)
    ensures
        r@ == image_name(offset as nat, local as nat, id@),
{
    let mut s = String::new();
    push_decimal(&mut s, offset);
    proof {
        reveal_strlit("_");
        reveal_strlit(".png");
    }
    s.append("_");
    push_decimal(&mut s, local);
    s.append("_");
    s.append(id);
    s.append(".png");
    assert(s@ =~= image_name(offset as nat, local as nat, id@));
    s
}

/// The name of a chunk's partial file: `part_{offset}.md`.
pub fn partial_file_name(offset: u64) -> (r: String)
    ensures
        r@ == partial_name(offset as nat),
{
    proof {
        reveal_strlit("part_");
        reveal_strlit(".md");
    }
    let mut s = String::new();
    s.append("part_");
    push_decimal(&mut s, offset);
    s.append(".md");
    assert(s@ =~= partial_name(offset as nat));
    s
}

fn build_placeholder(id: &str, slash: bool) -> (r: String)
    ensures
        r@ == (if slash {
            placeholder_slash(id@)
        } else {
            placeholder(id@)
        }),
{
    proof {
        reveal_strlit("![");
        reveal_strlit("](");
        reveal_strlit("](/");
        reveal_strlit(")");
    }
    let mut s = String::new();
    s.append("![");
    s.append(id);
    if slash {
        s.append("](/");
    } else {
        s.append("](");
    }
    s.append(id);
    s.append(")");
    if slash {
        assert(s@ =~= placeholder_slash(id@));
    } else {
        assert(s@ =~= placeholder(id@));
    }
    s
}

fn build_image_link(id: &str, file: &str) -> (r: String)
    ensures
        r@ == image_link(id@, file@),
{
    proof {
        reveal_strlit("![");
        reveal_strlit("](images/");
        reveal_strlit(")");
    }
    let mut s = String::new();
    s.append("![");
    s.append(id);
    s.append("](images/");
    s.append(file);
    s.append(")");
    assert(s@ =~= image_link(id@, file@));
    s
}

/// `md` with both placeholder spellings of `id` rewritten to `![id](images/file)`.
pub fn rewrite_placeholders(md: &str, id: &str, file: &str) -> (r: String)
    ensures
        r@ == rewrite_image(md@, id@, file@),
{
    let link = build_image_link(id, file);
    let plain = build_placeholder(id, false);
    let slash = build_placeholder(id, true);
    let once = replace_str(md, plain.as_str(), link.as_str());
    replace_str(once.as_str(), slash.as_str(), link.as_str())
}

/// A page's Markdown with each of its images' placeholders rewritten to the
/// image's file under `images/`.
pub fn render_page_text(page: &OcrPage, offset: u64, local: u64) -> (r: String)
    ensures
        r@ == page_text(page@.0, page@.1, offset as nat, local as nat),
{
    let mut md = page.markdown.clone();
    let mut k: usize = 0;
    while k < page.images.len()
        invariant
            k <= page.images@.len(),
            md@ == page_text(page@.0, page@.1.subrange(0, k as int), offset as nat, local as nat),
        decreases page.images.len() - k,
    {
        let img = &page.images[k];
        let file = image_file_name(offset, local, img.id.as_str());
        md = rewrite_placeholders(md.as_str(), img.id.as_str(), file.as_str());
        k = k + 1;
        assert(page@.1.subrange(0, k as int).drop_last() =~= page@.1.subrange(0, k - 1));
    }
    assert(page@.1.subrange(0, k as int) =~= page@.1);
    md
}

/// The partial Markdown of a chunk whose first page is global page `offset + 1`:
/// one `## Page n` section per page, separated by blank lines.
pub fn render_chunk_markdown(result: &OcrResult, offset: u64) -> (r: String)
    requires
        offset + result.pages@.len() < u64::MAX,
    ensures
        r@ == chunk_markdown(result@, offset as nat),
{
    proof {
        reveal_strlit("## Page ");
        reveal_strlit("\n\n");
    }
    let mut sections: Vec<String> = Vec::new();
    let mut i: usize = 0;
    while i < result.pages.len()
        invariant
            i <= result.pages@.len(),
            offset + result.pages@.len() < u64::MAX,
            sections@.map_values(|p: String| p@) =~= chunk_sections(result@, offset as nat).subrange(
                0,
                i as int,
            ),
        decreases result.pages.len() - i,
    {
        let page = &result.pages[i];
        let body = render_page_text(page, offset, i as u64);
        let mut sec = String::new();
        sec.append("## Page ");
        push_decimal(&mut sec, offset + i as u64 + 1);
        sec.append("\n\n");
        sec.append(body.as_str());
        assert(result@[i as int] == page@);
        proof {
            reveal_strlit("## Page ");
            reveal_strlit("\n\n");
        }
        assert("## Page "@ =~= seq!['#', '#', ' ', 'P', 'a', 'g', 'e', ' ']);
        assert("\n\n"@ =~= seq!['\n', '\n']);
        assert(sec@ =~= chunk_sections(result@, offset as nat)[i as int]);
        let ghost old_sections = sections@;
        let ghost sv = sec@;
        sections.push(sec);
        assert(sections@.map_values(|p: String| p@) =~= old_sections.map_values(|p: String| p@).push(
            sv,
        ));
        i = i + 1;
    }
    assert(chunk_sections(result@, offset as nat).subrange(0, i as int) =~= chunk_sections(
        result@,
        offset as nat,
    ));
    join_sections(&sections)
}

fn join_sections(sections: &Vec<String>) -> (r: String)
    ensures
        r@ == join(sections@.map_values(|p: String| p@), blank_line()),
{
    proof {
        reveal_strlit("\n\n");
    }
    assert("\n\n"@ =~= blank_line());
    join_strings(sections, "\n\n")
}

/// The image files of a chunk, decoded from their payloads, page by page; an error
/// naming the first image whose payload is not valid base64.
pub fn decode_chunk_images(result: &OcrResult, offset: u64) -> (r: Result<
    Vec<ImageFile>,
    ImageDecodeError,
>)
    requires
        result.pages@.len() <= u64::MAX,
    ensures
        match r {
            Ok(files) => {
                let e = chunk_image_entries(result@, offset as nat);
                &&& all_decode(e)
                &&& files@.len() == e.len()
                &&& forall|k: int|
                    0 <= k < e.len() ==> (#[trigger] files@[k])@ == (
                        e[k].0,
                        standard_decoded(e[k].1)->0,
                    )
            },
            Err(_) => !all_decode(chunk_image_entries(result@, offset as nat)),
        },
{
    let mut files: Vec<ImageFile> = Vec::new();
    let mut i: usize = 0;
    while i < result.pages.len()
        invariant
            i <= result.pages@.len(),
            result.pages@.len() <= u64::MAX,
            ({
                let e = chunk_image_entries(result@.subrange(0, i as int), offset as nat);
                &&& all_decode(e)
                &&& files@.len() == e.len()
                &&& forall|k: int|
                    0 <= k < e.len() ==> (#[trigger] files@[k])@ == (
                        e[k].0,
                        standard_decoded(e[k].1)->0,
                    )
            }),
        decreases result.pages.len() - i,
    {
        let page = &result.pages[i];
        let ghost before = chunk_image_entries(result@.subrange(0, i as int), offset as nat);
        let ghost pe = page_image_entries(page@.1, offset as nat, i as nat);
        proof {
            let next = result@.subrange(0, i + 1);
            assert(next.drop_last() =~= result@.subrange(0, i as int));
            assert(next.last() == page@);
            assert(chunk_image_entries(next, offset as nat) == before + pe);
        }
        let mut k: usize = 0;
        while k < page.images.len()
            invariant
                k <= page.images@.len(),
                i < result.pages@.len(),
                result@.len() == result.pages@.len(),
                page == &result.pages@[i as int],
                chunk_image_entries(result@.subrange(0, i + 1), offset as nat) == before + pe,
                pe == page_image_entries(page@.1, offset as nat, i as nat),
                all_decode(before),
                all_decode(pe.subrange(0, k as int)),
                files@.len() == before.len() + k,
                forall|j: int|
                    0 <= j < before.len() + k ==> (#[trigger] files@[j])@ == (
                        (before + pe)[j].0,
                        standard_decoded((before + pe)[j].1)->0,
                    ),
            decreases page.images.len() - k,
        {
            let img = &page.images[k];
            let name = image_file_name(offset, i as u64, img.id.as_str());
            assert(pe[k as int] == (name@, img.base64@));
            match decode_standard(img.base64.as_str()) {
                Ok(bytes) => {
                    files.push(ImageFile { name, bytes });
                    k = k + 1;
                    assert forall|j: int| 0 <= j < k implies (#[trigger] standard_decoded(
                        pe.subrange(0, k as int)[j].1,
                    )) is Some by {
                        if j < k - 1 {
                            assert(pe.subrange(0, k as int)[j] == pe.subrange(0, k - 1)[j]);
                        }
                    }
                },
                Err(_) => {
                    proof {
                        let e = chunk_image_entries(result@, offset as nat);
                        lemma_entries_prefix(result@, offset as nat, (i + 1) as nat);
                        let idx = before.len() + k;
                        assert((before + pe)[idx as int] == pe[k as int]);
                        assert(e[idx as int] == pe[k as int]);
                        assert(standard_decoded(e[idx as int].1) is None);
                        assert(!all_decode(e));
                    }
                    return Err(ImageDecodeError { image: name });
                },
            }
        }
        proof {
            assert(pe.subrange(0, k as int) =~= pe);
            let e = before + pe;
            assert forall|j: int| 0 <= j < e.len() implies (#[trigger] standard_decoded(
                e[j].1,
            )) is Some by {
                if j >= before.len() {
                    assert(e[j] == pe[j - before.len()]);
                }
            }
        }
        i = i + 1;
    }
    assert(result@.subrange(0, i as int) =~= result@);
    Ok(files)
}

/// Normalises one chunk's recognition result: the partial file `part_{offset}.md`,
/// its Markdown, and one image file per image; an error where a payload does not decode.
pub fn normalize_chunk(result: &OcrResult, offset: u64) -> (r: Result<ChunkOutput, ImageDecodeError>)
    requires
        offset + result.pages@.len() < u64::MAX,
    ensures
        match r {
            Ok(out) => {
                let e = chunk_image_entries(result@, offset as nat);
                &&& out.file_name@ == partial_name(offset as nat)
                &&& out.markdown@ == chunk_markdown(result@, offset as nat)
                &&& all_decode(e)
                &&& out.images@.len() == e.len()
                &&& forall|k: int|
                    0 <= k < e.len() ==> (#[trigger] out.images@[k])@ == (
                        e[k].0,
                        standard_decoded(e[k].1)->0,
                    )
            },
            Err(_) => !all_decode(chunk_image_entries(result@, offset as nat)),
        },
{
    let images = match decode_chunk_images(result, offset) {
        Ok(files) => files,
        Err(e) => {
            return Err(e);
        },
    };
    let markdown = render_chunk_markdown(result, offset);
    let file_name = partial_file_name(offset);
    Ok(ChunkOutput { file_name, markdown, images })
}

/// The entries of a prefix of the pages are a prefix of the entries of all of them.
proof fn lemma_entries_prefix(
    pages: Seq<(Seq<char>, Seq<(Seq<char>, Seq<char>)>)>,
    offset: nat,
    n: nat,
)
    requires
        n <= pages.len(),
    ensures
        chunk_image_entries(pages.subrange(0, n as int), offset).len() <= chunk_image_entries(
            pages,
            offset,
        ).len(),
        forall|k: int|
            0 <= k < chunk_image_entries(pages.subrange(0, n as int), offset).len() ==> (
            #[trigger] chunk_image_entries(pages.subrange(0, n as int), offset)[k])
                == chunk_image_entries(pages, offset)[k],
    decreases pages.len() - n,
{
    if n < pages.len() {
        lemma_entries_prefix(pages, offset, n + 1);
        let next = pages.subrange(0, n + 1 as int);
        assert(next.drop_last() =~= pages.subrange(0, n as int));
        let a = chunk_image_entries(pages.subrange(0, n as int), offset);
        assert(chunk_image_entries(next, offset) == a + page_image_entries(
            next.last().1,
            offset,
            n,
        ));
        assert forall|k: int| 0 <= k < a.len() implies #[trigger] a[k] == chunk_image_entries(
            pages,
            offset,
        )[k] by {
            assert(chunk_image_entries(next, offset)[k] == a[k]);
        }
    } else {
        assert(pages.subrange(0, n as int) =~= pages);
    }
}

proof fn lemma_split_at_separator(d1: Seq<char>, r1: Seq<char>, d2: Seq<char>, r2: Seq<char>)
    requires
        forall|k: int| 0 <= k < d1.len() ==> is_digit(#[trigger] d1[k]),
        forall|k: int| 0 <= k < d2.len() ==> is_digit(#[trigger] d2[k]),
        d1 + seq!['_'] + r1 == d2 + seq!['_'] + r2,
    ensures
        d1 == d2,
        r1 == r2,
{
    let s = d1 + seq!['_'] + r1;
    let t = d2 + seq!['_'] + r2;
    if d1.len() < d2.len() {
        assert(s[d1.len() as int] == '_');
        assert(t[d1.len() as int] == d2[d1.len() as int]);
    } else if d2.len() < d1.len() {
        assert(t[d2.len() as int] == '_');
        assert(s[d2.len() as int] == d1[d2.len() as int]);
    } else {
        assert(d1 =~= s.subrange(0, d1.len() as int));
        assert(d2 =~= t.subrange(0, d2.len() as int));
        assert(r1 =~= s.subrange(d1.len() + 1int, s.len() as int));
        assert(r2 =~= t.subrange(d2.len() + 1int, t.len() as int));
    }
}

/// Image file names never collide: two images get the same file name only when
/// they have the same chunk offset, the same local page and the same identifier,
/// so two chunks whose providers reuse an identifier on the same local page get
/// distinct files.
pub proof fn lemma_image_names_distinct(
    o1: nat,
    p1: nat,
    id1: Seq<char>,
    o2: nat,
    p2: nat,
    id2: Seq<char>,
)
    ensures
        image_name(o1, p1, id1) == image_name(o2, p2, id2) ==> o1 == o2 && p1 == p2 && id1 == id2,
{
    if image_name(o1, p1, id1) == image_name(o2, p2, id2) {
        let png = seq!['.', 'p', 'n', 'g'];
        lemma_decimal_digits(o1);
        lemma_decimal_digits(o2);
        lemma_decimal_digits(p1);
        lemma_decimal_digits(p2);
        let r1 = decimal(p1) + seq!['_'] + id1 + png;
        let r2 = decimal(p2) + seq!['_'] + id2 + png;
        assert(image_name(o1, p1, id1) =~= decimal(o1) + seq!['_'] + r1);
        assert(image_name(o2, p2, id2) =~= decimal(o2) + seq!['_'] + r2);
        lemma_split_at_separator(decimal(o1), r1, decimal(o2), r2);
        lemma_decimal_injective(o1, o2);
        assert(r1 =~= decimal(p1) + seq!['_'] + (id1 + png));
        assert(r2 =~= decimal(p2) + seq!['_'] + (id2 + png));
        lemma_split_at_separator(decimal(p1), id1 + png, decimal(p2), id2 + png);
        lemma_decimal_injective(p1, p2);
        assert(id1 =~= (id1 + png).subrange(0, id1.len() as int));
        assert(id2 =~= (id2 + png).subrange(0, id2.len() as int));
    }
}

/// An identifier that the rewriting can tell apart from the text around it.
pub open spec fn plain_id(id: Seq<char>) -> bool {
    forall|k: int| 0 <= k < id.len() ==> #[trigger] id[k] != '!' && id[k] != ')'
}

/// The link to an image holds `!` only at its start and `)` only at its end.
proof fn lemma_link_ends(id: Seq<char>, offset: nat, local: nat)
    requires
        plain_id(id),
    ensures
        ({
            let link = image_link(id, image_name(offset, local, id));
            &&& forall|k: int| 0 < k < link.len() ==> link[k] != '!'
            &&& forall|k: int| 0 <= k < link.len() - 1 ==> link[k] != ')'
        }),
{
    let link = image_link(id, image_name(offset, local, id));
    lemma_decimal_digits(offset);
    lemma_decimal_digits(local);
    assert forall|k: int| 0 < k < link.len() implies link[k] != '!' by {
        let a = decimal(offset);
        let b = decimal(local);
        if 11 + id.len() <= k < 11 + id.len() + a.len() {
            assert(link[k] == a[k - 11 - id.len()]);
        } else if 12 + id.len() + a.len() <= k < 12 + id.len() + a.len() + b.len() {
            assert(link[k] == b[k - 12 - id.len() - a.len()]);
        }
    }
    assert forall|k: int| 0 <= k < link.len() - 1 implies link[k] != ')' by {
        let a = decimal(offset);
        let b = decimal(local);
        if 11 + id.len() <= k < 11 + id.len() + a.len() {
            assert(link[k] == a[k - 11 - id.len()]);
        } else if 12 + id.len() + a.len() <= k < 12 + id.len() + a.len() + b.len() {
            assert(link[k] == b[k - 12 - id.len() - a.len()]);
        }
    }
}

/// Both placeholder spellings of an image, `![id](id)` and `![id](/id)`, become the
/// same reference to the image's file under `images/`.
#[verifier::rlimit(40)]
pub proof fn lemma_placeholder_spellings(id: Seq<char>, payload: Seq<char>, offset: nat, local: nat)
    requires
        plain_id(id),
    ensures
        page_text(placeholder(id), seq![(id, payload)], offset, local) == image_link(
            id,
            image_name(offset, local, id),
        ),
        page_text(placeholder_slash(id), seq![(id, payload)], offset, local) == image_link(
            id,
            image_name(offset, local, id),
        ),
{
    let file = image_name(offset, local, id);
    let link = image_link(id, file);
    let ph = placeholder(id);
    let phs = placeholder_slash(id);
    let imgs = seq![(id, payload)];
    assert(imgs.drop_last() =~= Seq::<(Seq<char>, Seq<char>)>::empty());
    assert(imgs.last().0 == id);
    lemma_decimal_digits(offset);
    lemma_decimal_digits(local);
    // `![id](id)`: replaced whole, and the link holds no `![id](/id)`.
    assert(ph.subrange(0, ph.len() as int) =~= ph);
    assert(ph.subrange(ph.len() as int, ph.len() as int) =~= Seq::<char>::empty());
    assert(ph.len() > 0);
    assert(replace_all(Seq::<char>::empty(), ph, link) == Seq::<char>::empty());
    assert(replace_all(ph, ph, link) == link + replace_all(
        ph.subrange(ph.len() as int, ph.len() as int),
        ph,
        link,
    ));
    assert(replace_all(ph, ph, link) =~= link);
    lemma_link_ends(id, offset, local);
    lemma_no_occurrence_by_ends(link, phs);
    lemma_replace_absent(link, phs, link);
    // `![id](/id)`: holds no `![id](id)`, and is replaced whole.
    assert forall|k: int| 0 < k < phs.len() implies phs[k] != ph[0] by {}
    assert forall|k: int| 0 <= k < phs.len() - 1 implies phs[k] != ph[ph.len() - 1] by {}
    lemma_no_occurrence_by_ends(phs, ph);
    lemma_replace_absent(phs, ph, link);
    assert(phs.subrange(0, phs.len() as int) =~= phs);
    assert(phs.subrange(phs.len() as int, phs.len() as int) =~= Seq::<char>::empty());
    assert(phs.len() > 0);
    assert(replace_all(Seq::<char>::empty(), phs, link) == Seq::<char>::empty());
    assert(replace_all(phs, phs, link) == link + replace_all(
        phs.subrange(phs.len() as int, phs.len() as int),
        phs,
        link,
    ));
    assert(replace_all(phs, phs, link) =~= link);
    assert(page_text(ph, imgs.drop_last(), offset, local) == ph);
    assert(page_text(ph, imgs, offset, local) == rewrite_image(ph, id, file));
    assert(page_text(phs, imgs.drop_last(), offset, local) == phs);
    assert(page_text(phs, imgs, offset, local) == rewrite_image(phs, id, file));
}

} // verus!
