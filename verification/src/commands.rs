//! What the windows ask for.

use vstd::prelude::*;
use vstd::string::*;

use crate::config::{origin, Config};
use crate::openai::copy_text;
use crate::proxy::alias::{build_aliases, names_models, FabrixModel, ResolvedModel};
use crate::proxy::models::{LoadedModels, MODELS_CACHE_TTL};
use crate::state::{address, AppState};
use crate::text::{same, trim, trimmed};

verus! {

/// A model in the window that lists them.
#[derive(Debug)]
pub struct ModelRow {
    /// What a client puts into `model`.
    pub alias: String,
    pub model_id: String,
    pub label: String,
    pub description: Option<String>,
    pub is_default: bool,
}

impl ModelRow {
    pub open spec fn shows(self, m: ResolvedModel, default_alias: Seq<char>) -> bool {
        &&& self.alias == m.alias
        &&& self.model_id == m.model_id
        &&& self.label == m.label
        &&& self.description == m.description
        &&& self.is_default == (m.alias@ == default_alias)
    }

    pub fn from(m: &ResolvedModel, default_alias: &str) -> (r: ModelRow)
        ensures
            r.shows(*m, default_alias@),
    {
        ModelRow {
            alias: m.alias.clone(),
            model_id: m.model_id.clone(),
            label: m.label.clone(),
            description: copy_text(&m.description),
            is_default: same(m.alias.as_str(), default_alias),
        }
    }

    pub fn rows(models: &[ResolvedModel], default_alias: &str) -> (r: Vec<ModelRow>)
        ensures
            shows_all(r@, models@, default_alias@),
    {
        let n: usize = models.len();
        let mut out: Vec<ModelRow> = Vec::new();
        let mut i: usize = 0;
        while i < n
            invariant
                i <= n == models@.len(),
                out@.len() == i,
                forall|k: int| 0 <= k < i ==> (#[trigger] out@[k]).shows(models@[k], default_alias@),
            decreases n - i,
        {
            out.push(ModelRow::from(&models[i], default_alias));
            i += 1;
        }
        out
    }
}

/// A row for each model, in order.
pub open spec fn shows_all(
    rows: Seq<ModelRow>,
    models: Seq<ResolvedModel>,
    default_alias: Seq<char>,
) -> bool {
    &&& rows.len() == models.len()
    &&& forall|i: int| 0 <= i < rows.len() ==> (#[trigger] rows[i]).shows(models[i], default_alias)
}

/// At most one row is the default where no two models have one name.
pub proof fn law_one_default(
    models: Seq<FabrixModel>,
    named: Seq<ResolvedModel>,
    rows: Seq<ModelRow>,
    default_alias: Seq<char>,
    i: int,
    j: int,
)
    requires
        names_models(models, named),
        shows_all(rows, named, default_alias),
        0 <= i < rows.len(),
        0 <= j < rows.len(),
        rows[i].is_default,
        rows[j].is_default,
    ensures
        i == j,
{
    assert(rows[i].shows(named[i], default_alias));
    assert(rows[j].shows(named[j], default_alias));
    if i < j {
        assert(named[i].alias@ != named[j].alias@);
    } else if j < i {
        assert(named[j].alias@ != named[i].alias@);
    }
}

#[derive(Debug)]
pub struct ModelListResult {
    pub models: Vec<ModelRow>,
    pub cached: bool,
    pub fetched_at: String,
    /// Where it is empty, the first model is the default.
    pub default_alias: String,
    pub source_url: String,
    pub cache_ttl_secs: u64,
}

/// The list for the window.
pub fn model_list(loaded: &LoadedModels, cfg: &Config) -> (r: ModelListResult)
    ensures
        shows_all(r.models@, loaded.models@, cfg.default_model_alias@),
        r.cached == loaded.cached,
        r.fetched_at == loaded.fetched_at,
        r.default_alias == cfg.default_model_alias,
        r.source_url@ == origin(cfg.fabrix_base_url@),
        r.cache_ttl_secs == 60,
{
    ModelListResult {
        models: ModelRow::rows(loaded.models.as_slice(), cfg.default_model_alias.as_str()),
        cached: loaded.cached,
        fetched_at: loaded.fetched_at.clone(),
        default_alias: cfg.default_model_alias.clone(),
        source_url: cfg.normalized_base_url(),
        cache_ttl_secs: MODELS_CACHE_TTL / 1000,
    }
}

/// The settings with another default model.
pub fn with_default_model(cfg: Config, alias: &str) -> (r: Config)
    ensures
        r.default_model_alias@ == trim(alias@),
        r == (Config { default_model_alias: r.default_model_alias, ..cfg }),
{
    let mut out = cfg;
    out.default_model_alias = trimmed(alias).to_owned();
    out
}

#[derive(Debug)]
pub struct TestResult {
    pub model_count: usize,
    pub models: Vec<ModelRow>,
}

/// Settings to try a connection with; nothing of them is saved.
pub fn trial_config(fabrix_base_url: String, fabrix_client: String, openapi_token: String) -> (r: Result<
    Config,
    String,
>)
    ensures
        ({
            let complete = trim(fabrix_base_url@).len() > 0 && trim(fabrix_client@).len() > 0
                && trim(openapi_token@).len() > 0;
            match r {
                Ok(cfg) => {
                    &&& complete
                    &&& cfg.fabrix_base_url == fabrix_base_url
                    &&& cfg.fabrix_client == fabrix_client
                    &&& cfg.openapi_token == openapi_token
                    &&& cfg.otherwise_default()
                },
                Err(m) => !complete && m@ == "주소 · 인증키 · 토큰을 모두 입력하세요."@,
            }
        }),
{
    let mut cfg = Config::default();
    cfg.fabrix_base_url = fabrix_base_url;
    cfg.fabrix_client = fabrix_client;
    cfg.openapi_token = openapi_token;
    if !cfg.is_configured() {
        return Err("주소 · 인증키 · 토큰을 모두 입력하세요.".to_owned());
    }
    Ok(cfg)
}

/// The outcome of a trial: the models that the gateway gave.
pub fn test_result(models: &[FabrixModel], cfg: &Config) -> (r: TestResult)
    ensures
        r.model_count == models@.len(),
        exists|named: Seq<ResolvedModel>| #[trigger]
            names_models(models@, named) && shows_all(
                r.models@,
                named,
                cfg.default_model_alias@,
            ),
{
    let named = build_aliases(models);
    let rows = ModelRow::rows(named.as_slice(), cfg.default_model_alias.as_str());
    proof {
        assert(names_models(models@, named@));
    }
    TestResult { model_count: named.len(), models: rows }
}

/// Whether new settings call for a restart: the port that is served on is another.
pub fn must_restart(running: Option<u16>, port: u16) -> (r: bool)
    ensures
        r == (running matches Some(p) && p != port),
{
    match running {
        Some(p) => p != port,
        None => false,
    }
}

impl AppState {
    /// The address to copy. There is none while nothing is served.
    pub fn endpoint_to_copy(&self) -> (r: Result<String, String>)
        ensures
            match self.serving {
                Some(port) => r matches Ok(s) && s@ == address(port),
                None => r matches Err(m) && m@
                    == "프록시가 꺼져 있어 복사할 주소가 없습니다."@,
            },
    {
        if !self.is_running() {
            return Err("프록시가 꺼져 있어 복사할 주소가 없습니다.".to_owned());
        }
        Ok(self.base_url())
    }
}

} // verus!
