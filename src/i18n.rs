use vstd::prelude::*;

verus! {

/// One translated text of a catalog.
pub struct Entry {
    pub key: String,
    pub text: String,
}

/// The texts of one language.
pub struct Catalog {
    pub lang: String,
    pub entries: Vec<Entry>,
}

/// The interface texts of every language, and the language in use.
pub struct I18n {
    current_lang: String,
    translations: Vec<Catalog>,
}

impl View for Entry {
    type V = (Seq<char>, Seq<char>);

    open spec fn view(&self) -> (Seq<char>, Seq<char>) {
        (self.key@, self.text@)
    }
}

impl View for Catalog {
    type V = (Seq<char>, Seq<(Seq<char>, Seq<char>)>);

    open spec fn view(&self) -> (Seq<char>, Seq<(Seq<char>, Seq<char>)>) {
        (self.lang@, self.entries@.map_values(|e: Entry| e@))
    }
}

/// The text of `key` in `entries`, from its first entry.
pub open spec fn find_text(entries: Seq<(Seq<char>, Seq<char>)>, key: Seq<char>) -> Option<Seq<char>>
    decreases entries.len(),
{
    if entries.len() == 0 {
        None
    } else if entries[0].0 == key {
        Some(entries[0].1)
    } else {
        find_text(entries.drop_first(), key)
    }
}

/// The text of `key` in the first catalog of `lang`; the key itself where that
/// language or that key has no text.
pub open spec fn translate(
    catalogs: Seq<(Seq<char>, Seq<(Seq<char>, Seq<char>)>)>,
    lang: Seq<char>,
    key: Seq<char>,
) -> Seq<char>
    decreases catalogs.len(),
{
    if catalogs.len() == 0 {
        key
    } else if catalogs[0].0 == lang {
        match find_text(catalogs[0].1, key) {
            Some(t) => t,
            None => key,
        }
    } else {
        translate(catalogs.drop_first(), lang, key)
    }
}

/// The simplified Chinese texts.
pub open spec fn zh_cn_texts() -> Seq<(Seq<char>, Seq<char>)> {
    seq![
        ("app_title"@, "OCR-eg "@),
        ("header_title"@, "OCR-eg"@),
        ("language"@, "语言"@),
        ("drop_area_hint"@, "拖放PDF或图像文件到此处，或点击选择"@),
        ("queue_label"@, "任务队列"@),
        ("add_files"@, "添加文件"@),
        ("remove_selected"@, "移除选中"@),
        ("clear_queue"@, "清空队列"@),
        ("output_settings"@, "输出设置"@),
        ("save_location"@, "保存位置"@),
        ("browse_button"@, "浏览"@),
        ("progress_label"@, "处理进度"@),
        ("total_progress"@, "总体进度"@),
        ("current_file"@, "当前文件"@),
        ("ready"@, "准备就绪"@),
        ("start_process"@, "开始处理"@),
        ("set_api_key"@, "设置 API Key"@),
        ("browse_results"@, "浏览结果"@),
        ("copyright"@, ""@),
        ("api_key_title"@, "设置 Mistral API Key"@),
        ("api_key_prompt"@, "请输入您的 Mistral API Key (用于驱动识别引擎)"@),
        ("no_api_key"@, "还没有 API Key?"@),
        ("apply_here"@, "由此申请"@),
        ("api_activation_note"@, "请确保您的 API 已激活且有余额"@),
        ("api_security_note"@, "您的 Key 将保存在本地配置文件中"@),
        ("save"@, "保存"@),
        ("cancel"@, "取消"@),
        ("show"@, "显示"@),
        ("hide"@, "隐藏"@),
        ("ocr_result_dir"@, "ocr_结果_"@),
        ("success_all_files_done"@, "所有文件处理完成！"@),
    ]
}

/// The English texts.
pub open spec fn en_us_texts() -> Seq<(Seq<char>, Seq<char>)> {
    seq![
        ("app_title"@, "OCR-eg"@),
        ("header_title"@, "OCR-eg"@),
        ("language"@, "Language"@),
        ("drop_area_hint"@, "Drop PDF or image files here, or click to select"@),
        ("queue_label"@, "Task Queue"@),
        ("add_files"@, "Add Files"@),
        ("remove_selected"@, "Remove Selected"@),
        ("clear_queue"@, "Clear Queue"@),
        ("output_settings"@, "Output Settings"@),
        ("save_location"@, "Save Location"@),
        ("browse_button"@, "Browse"@),
        ("progress_label"@, "Progress"@),
        ("total_progress"@, "Total Progress"@),
        ("current_file"@, "Current File"@),
        ("ready"@, "Ready"@),
        ("start_process"@, "Start Processing"@),
        ("set_api_key"@, "Set API Key"@),
        ("browse_results"@, "Browse Results"@),
        ("copyright"@, ""@),
        ("api_key_title"@, "Set Mistral API Key"@),
        ("api_key_prompt"@, "Please enter your Mistral API Key (to power the engine)"@),
        ("no_api_key"@, "Don't have an API Key?"@),
        ("apply_here"@, "Apply here"@),
        ("api_activation_note"@, "Ensure your API is activated and has balance"@),
        ("api_security_note"@, "Your key will be saved locally"@),
        ("save"@, "Save"@),
        ("cancel"@, "Cancel"@),
        ("show"@, "Show"@),
        ("hide"@, "Hide"@),
        ("ocr_result_dir"@, "lumi_ocr_results_"@),
        ("success_all_files_done"@, "All files processed successfully!"@),
    ]
}

/// The catalogs that the interface ships with.
pub open spec fn builtin_catalogs() -> Seq<(Seq<char>, Seq<(Seq<char>, Seq<char>)>)> {
    seq![("zh_CN"@, zh_cn_texts()), ("en_US"@, en_us_texts())]
}

fn entry(key: &str, text: &str) -> (r: Entry)
    ensures
        r@ == (key@, text@),
{
    Entry { key: String::from_str(key), text: String::from_str(text) }
}

fn zh_cn_entries() -> (r: Vec<Entry>)
    ensures
        r@.map_values(|e: Entry| e@) == zh_cn_texts(),
{
    let mut zh: Vec<Entry> = Vec::new();
    zh.push(entry("app_title", "OCR-eg "));
    zh.push(entry("header_title", "OCR-eg"));
    zh.push(entry("language", "语言"));
    zh.push(entry("drop_area_hint", "拖放PDF或图像文件到此处，或点击选择"));
    zh.push(entry("queue_label", "任务队列"));
    zh.push(entry("add_files", "添加文件"));
    zh.push(entry("remove_selected", "移除选中"));
    zh.push(entry("clear_queue", "清空队列"));
    zh.push(entry("output_settings", "输出设置"));
    zh.push(entry("save_location", "保存位置"));
    zh.push(entry("browse_button", "浏览"));
    zh.push(entry("progress_label", "处理进度"));
    zh.push(entry("total_progress", "总体进度"));
    zh.push(entry("current_file", "当前文件"));
    zh.push(entry("ready", "准备就绪"));
    zh.push(entry("start_process", "开始处理"));
    zh.push(entry("set_api_key", "设置 API Key"));
    zh.push(entry("browse_results", "浏览结果"));
    zh.push(entry("copyright", ""));
    zh.push(entry("api_key_title", "设置 Mistral API Key"));
    zh.push(entry("api_key_prompt", "请输入您的 Mistral API Key (用于驱动识别引擎)"));
    zh.push(entry("no_api_key", "还没有 API Key?"));
    zh.push(entry("apply_here", "由此申请"));
    zh.push(entry("api_activation_note", "请确保您的 API 已激活且有余额"));
    zh.push(entry("api_security_note", "您的 Key 将保存在本地配置文件中"));
    zh.push(entry("save", "保存"));
    zh.push(entry("cancel", "取消"));
    zh.push(entry("show", "显示"));
    zh.push(entry("hide", "隐藏"));
    zh.push(entry("ocr_result_dir", "ocr_结果_"));
    zh.push(entry("success_all_files_done", "所有文件处理完成！"));
    assert(zh@.map_values(|e: Entry| e@) =~= zh_cn_texts());
    zh
}

fn en_us_entries() -> (r: Vec<Entry>)
    ensures
        r@.map_values(|e: Entry| e@) == en_us_texts(),
{
    let mut en: Vec<Entry> = Vec::new();
    en.push(entry("app_title", "OCR-eg"));
    en.push(entry("header_title", "OCR-eg"));
    en.push(entry("language", "Language"));
    en.push(entry("drop_area_hint", "Drop PDF or image files here, or click to select"));
    en.push(entry("queue_label", "Task Queue"));
    en.push(entry("add_files", "Add Files"));
    en.push(entry("remove_selected", "Remove Selected"));
    en.push(entry("clear_queue", "Clear Queue"));
    en.push(entry("output_settings", "Output Settings"));
    en.push(entry("save_location", "Save Location"));
    en.push(entry("browse_button", "Browse"));
    en.push(entry("progress_label", "Progress"));
    en.push(entry("total_progress", "Total Progress"));
    en.push(entry("current_file", "Current File"));
    en.push(entry("ready", "Ready"));
    en.push(entry("start_process", "Start Processing"));
    en.push(entry("set_api_key", "Set API Key"));
    en.push(entry("browse_results", "Browse Results"));
    en.push(entry("copyright", ""));
    en.push(entry("api_key_title", "Set Mistral API Key"));
    en.push(entry("api_key_prompt", "Please enter your Mistral API Key (to power the engine)"));
    en.push(entry("no_api_key", "Don't have an API Key?"));
    en.push(entry("apply_here", "Apply here"));
    en.push(entry("api_activation_note", "Ensure your API is activated and has balance"));
    en.push(entry("api_security_note", "Your key will be saved locally"));
    en.push(entry("save", "Save"));
    en.push(entry("cancel", "Cancel"));
    en.push(entry("show", "Show"));
    en.push(entry("hide", "Hide"));
    en.push(entry("ocr_result_dir", "lumi_ocr_results_"));
    en.push(entry("success_all_files_done", "All files processed successfully!"));
    assert(en@.map_values(|e: Entry| e@) =~= en_us_texts());
    en
}

impl I18n {
    /// The language in use.
    pub closed spec fn lang(&self) -> Seq<char> {
        self.current_lang@
    }

    /// The catalogs, in lookup order.
    pub closed spec fn catalogs(&self) -> Seq<(Seq<char>, Seq<(Seq<char>, Seq<char>)>)> {
        self.translations@.map_values(|c: Catalog| c@)
    }

    /// The built-in catalogs, with `lang` in use.
    pub fn new(lang: &str) -> (r: I18n)
        ensures
            r.lang() == lang@,
            r.catalogs() == builtin_catalogs(),
    {
        let mut translations: Vec<Catalog> = Vec::new();
        translations.push(Catalog { lang: String::from_str("zh_CN"), entries: zh_cn_entries() });
        translations.push(Catalog { lang: String::from_str("en_US"), entries: en_us_entries() });
        let r = I18n { current_lang: String::from_str(lang), translations };
        assert(r.catalogs() =~= builtin_catalogs());
        r
    }

    /// The text of `key` in the language in use, or `key` itself where there is none.
    pub fn t<'a>(&'a self, key: &'a str) -> (r: &'a str)
        ensures
            r@ == translate(self.catalogs(), self.lang(), key@),
    {
        let k = String::from_str(key);
        let mut i: usize = 0;
        assert(self.catalogs().subrange(0, self.catalogs().len() as int) =~= self.catalogs());
        while i < self.translations.len()
            invariant
                i <= self.translations@.len(),
                k@ == key@,
                translate(self.catalogs(), self.lang(), key@) == translate(
                    self.catalogs().subrange(i as int, self.catalogs().len() as int),
                    self.lang(),
                    key@,
                ),
            decreases self.translations.len() - i,
        {
            let ghost rest = self.catalogs().subrange(i as int, self.catalogs().len() as int);
            let cat = &self.translations[i];
            assert(rest[0] == cat@);
            if cat.lang == self.current_lang {
                let mut j: usize = 0;
                let ghost es = cat@.1;
                assert(es.subrange(0, es.len() as int) =~= es);
                assert(translate(self.catalogs(), self.lang(), key@) == match find_text(es, key@) {
                    Some(t) => t,
                    None => key@,
                });
                while j < cat.entries.len()
                    invariant
                        j <= cat.entries@.len(),
                        es == cat.entries@.map_values(|e: Entry| e@),
                        k@ == key@,
                        translate(self.catalogs(), self.lang(), key@) == match find_text(es, key@) {
                            Some(t) => t,
                            None => key@,
                        },
                        find_text(es, key@) == find_text(es.subrange(j as int, es.len() as int), key@),
                    decreases cat.entries.len() - j,
                {
                    let e = &cat.entries[j];
                    let ghost tail = es.subrange(j as int, es.len() as int);
                    assert(tail[0] == e@);
                    if e.key == k {
                        return e.text.as_str();
                    }
                    assert(tail.drop_first() =~= es.subrange(j + 1, es.len() as int));
                    j = j + 1;
                }
                assert(es.subrange(j as int, es.len() as int) =~= Seq::<(Seq<char>, Seq<char>)>::empty());
                return key;
            }
            assert(rest.drop_first() =~= self.catalogs().subrange(i + 1, self.catalogs().len() as int));
            i = i + 1;
        }
        assert(self.catalogs().subrange(i as int, self.catalogs().len() as int) =~= Seq::<
            (Seq<char>, Seq<(Seq<char>, Seq<char>)>),
        >::empty());
        key
    }

    /// Puts `lang` in use; the catalogs stay as they are.
    pub fn set_lang(&mut self, lang: &str)
        ensures
            final(self).lang() == lang@,
            final(self).catalogs() == old(self).catalogs(),
    {
        self.current_lang = String::from_str(lang);
    }
}

} // verus!
