use vstd::prelude::*;

verus! {

/// The API key stored for one provider.
pub struct ApiKey {
    pub provider: String,
    pub key: String,
}

/// The persisted settings. `api_key` is the single key of older settings, kept so
/// that it can be moved into `api_keys`; no two entries of `api_keys` share a provider.
pub struct AppConfig {
    pub api_key: Option<String>,
    pub language: String,
    pub active_provider: String,
    pub api_keys: Vec<ApiKey>,
}

impl View for ApiKey {
    type V = (Seq<char>, Seq<char>);

    open spec fn view(&self) -> (Seq<char>, Seq<char>) {
        (self.provider@, self.key@)
    }
}

pub open spec fn default_provider() -> Seq<char> {
    seq!['m', 'i', 's', 't', 'r', 'a', 'l']
}

pub open spec fn default_language() -> Seq<char> {
    seq!['z', 'h', '_', 'C', 'N']
}

/// Some entry of `keys` is for `provider`.
pub open spec fn has_provider(keys: Seq<(Seq<char>, Seq<char>)>, provider: Seq<char>) -> bool {
    exists|i: int| 0 <= i < keys.len() && #[trigger] keys[i].0 == provider
}

impl AppConfig {
    pub open spec fn keys(&self) -> Seq<(Seq<char>, Seq<char>)> {
        self.api_keys@.map_values(|k: ApiKey| k@)
    }

    /// No two stored keys are for the same provider.
    pub open spec fn wf(&self) -> bool {
        forall|i: int, j: int|
            0 <= i < j < self.keys().len() ==> #[trigger] self.keys()[i].0 != #[trigger] self.keys()[j].0
    }
}

impl Default for AppConfig {
    /// Chinese texts, the Mistral provider, and no key.
    fn default() -> (r: AppConfig)
        ensures
            r.api_key is None,
            r.language@ == default_language(),
            r.active_provider@ == default_provider(),
            r.api_keys@.len() == 0,
            r.wf(),
    {
        proof {
            reveal_strlit("zh_CN");
            reveal_strlit("mistral");
        }
        let r = AppConfig {
            api_key: None,
            language: String::from_str("zh_CN"),
            active_provider: String::from_str("mistral"),
            api_keys: Vec::new(),
        };
        assert(r.language@ =~= default_language());
        assert(r.active_provider@ =~= default_provider());
        r
    }
}

/// Whether a key is stored for `provider`.
fn has_key_for(keys: &Vec<ApiKey>, provider: &String) -> (r: bool)
    ensures
        r == has_provider(keys@.map_values(|k: ApiKey| k@), provider@),
{
    let ghost kv = keys@.map_values(|k: ApiKey| k@);
    let mut i: usize = 0;
    while i < keys.len()
        invariant
            i <= keys@.len(),
            kv == keys@.map_values(|k: ApiKey| k@),
            forall|j: int| 0 <= j < i ==> kv[j].0 != provider@,
        decreases keys.len() - i,
    {
        if keys[i].provider == *provider {
            assert(kv[i as int].0 == provider@);
            return true;
        }
        i = i + 1;
    }
    false
}

/// Settings brought up to date after loading: a key of older settings is stored as
/// the Mistral key unless one is stored already, and an empty active provider
/// becomes Mistral.
pub fn migrate_config(config: AppConfig) -> (r: AppConfig)
    requires
        config.wf(),
    ensures
        r.wf(),
        r.api_key == config.api_key,
        r.language == config.language,
        r.active_provider@ == (if config.active_provider@.len() == 0 {
            default_provider()
        } else {
            config.active_provider@
        }),
        r.keys() == (match config.api_key {
            Some(old) => if has_provider(config.keys(), default_provider()) {
                config.keys()
            } else {
                config.keys().push((default_provider(), old@))
            },
            None => config.keys(),
        }),
{
    proof {
        reveal_strlit("mistral");
    }
    let mistral = String::from_str("mistral");
    assert(mistral@ =~= default_provider());
    let mut config = config;
    let ghost before = config.keys();
    match &config.api_key {
        Some(old_key) => {
            if !has_key_for(&config.api_keys, &mistral) {
                let ghost kv = config.api_keys@;
                config.api_keys.push(ApiKey { provider: mistral.clone(), key: old_key.clone() });
                assert(config.keys() =~= before.push((default_provider(), old_key@)));
                assert forall|i: int, j: int|
                    0 <= i < j < config.keys().len() implies #[trigger] config.keys()[i].0
                    != #[trigger] config.keys()[j].0 by {
                    if j == config.keys().len() - 1 {
                        assert(before[i].0 != default_provider());
                    } else {
                        assert(config.keys()[i] == before[i]);
                        assert(config.keys()[j] == before[j]);
                    }
                }
            }
        },
        None => {},
    }
    if config.active_provider.unicode_len() == 0 {
        config.active_provider = mistral;
    }
    config
}

} // verus!
