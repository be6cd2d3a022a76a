//! The state of the program, as far as it is plain data.

use vstd::prelude::*;
use vstd::string::*;

use crate::config::{origin, Config, Stats};
use crate::logstore::{LogEntry, LogStore, CAPACITY};
use crate::port::PortStatus;
use crate::proxy::models::ModelsCache;
use crate::text::{dec, dec_u64};

verus! {

/// The shortest time between two writes of the figures, in milliseconds.
pub const STATS_FLUSH_INTERVAL: u64 = 2_000;

/// How many calls the overview shows.
pub const RECENT: usize = 4;

#[derive(Debug)]
pub struct AppState {
    pub config: Config,
    pub stats: Stats,
    pub logs: LogStore,
    /// The port that is served on, while one is.
    pub serving: Option<u16>,
    pub models_cache: Option<ModelsCache>,
    /// There were no settings when the program started.
    pub first_run: bool,
    /// How many notices were shown.
    pub toast_gen: u64,
    /// When the figures were written, in milliseconds on a clock that never goes back.
    /// `None` until they are written for the first time.
    pub stats_flushed_at: Option<u64>,
}

/// What the windows show.
#[derive(Debug)]
pub struct Snapshot {
    pub configured: bool,
    pub first_run: bool,
    pub running: bool,
    pub port: u16,
    pub base_url: String,
    pub auto_start: bool,
    pub fabrix_base_url: String,
    pub default_model_alias: String,
    pub insecure_skip_verify: bool,
    pub token_mode: bool,
    /// The token that callers must present, where one is asked for.
    pub issued_token: String,
    pub stats: Stats,
    pub recent: Vec<LogEntry>,
    pub port_status: PortStatus,
    /// How many models there are, while the list is good.
    pub model_count: Option<usize>,
}

/// The address that clients are given.
pub open spec fn address(port: u16) -> Seq<char> {
    "http://127.0.0.1:"@ + dec(port as nat) + "/v1"@
}

pub fn address_of(port: u16) -> (r: String)
    ensures
        r@ == address(port),
{
    let mut out = "http://127.0.0.1:".to_owned();
    out.append(dec_u64(port as u64).as_str());
    out.append("/v1");
    out
}

impl AppState {
    /// The log holds no more than it may.
    pub open spec fn wf(self) -> bool {
        self.logs.within_capacity()
    }

    pub fn new(config: Config, stats: Stats, first_run: bool, today: &str) -> (r: AppState)
        ensures
            r.wf(),
            r.config == config,
            r.stats@ == stats@.on_day(today@),
            r.logs@.len() == 0,
            r.serving is None,
            r.models_cache is None,
            r.first_run == first_run,
            r.toast_gen == 0,
            r.stats_flushed_at is None,
    {
        let mut stats = stats;
        stats.roll_over(today);
        AppState {
            config,
            stats,
            logs: LogStore::default(),
            serving: None,
            models_cache: None,
            first_run,
            toast_gen: 0,
            stats_flushed_at: None,
        }
    }

    /// New settings. They may name another gateway, so the list of models goes.
    pub fn replace_config(&mut self, config: Config)
        ensures
            *final(self) == (AppState {
                config,
                models_cache: None,
                first_run: false,
                ..*old(self)
            }),
    {
        self.models_cache = None;
        self.config = config;
        self.first_run = false;
    }

    pub fn running_port(&self) -> (r: Option<u16>)
        ensures
            r == self.serving,
    {
        self.serving
    }

    pub fn is_running(&self) -> (r: bool)
        ensures
            r == self.serving is Some,
    {
        self.serving.is_some()
    }

    /// The port that is served on, else the one in the settings.
    pub open spec fn port_view(self) -> u16 {
        match self.serving {
            Some(p) => p,
            None => self.config.port,
        }
    }

    pub fn port(&self) -> (r: u16)
        ensures
            r == self.port_view(),
    {
        match self.serving {
            Some(p) => p,
            None => self.config.port,
        }
    }

    pub fn base_url(&self) -> (r: String)
        ensures
            r@ == address(self.port_view()),
    {
        address_of(self.port())
    }

    /// The snapshot shows this state.
    pub open spec fn is_shown_by(self, s: Snapshot, port_status: PortStatus, now: u64) -> bool {
        &&& s.configured == self.config.configured()
        &&& s.first_run == self.first_run
        &&& s.running == self.serving is Some
        &&& s.port == self.port_view()
        &&& s.base_url@ == address(self.port_view())
        &&& s.auto_start == self.config.auto_start
        &&& s.fabrix_base_url@ == origin(self.config.fabrix_base_url@)
        &&& s.default_model_alias == self.config.default_model_alias
        &&& s.insecure_skip_verify == self.config.insecure_skip_verify
        &&& s.token_mode == self.config.token_mode
        &&& s.issued_token@ == if self.config.token_mode {
            self.config.issued_token@
        } else {
            ""@
        }
        &&& s.stats@ == self.stats@
        &&& s.recent@.len() == if self.logs@.len() < RECENT {
            self.logs@.len()
        } else {
            RECENT as nat
        }
        &&& forall|i: int|
            0 <= i < s.recent@.len() ==> self.logs@[i].without_wire(#[trigger] s.recent@[i])
        &&& s.port_status == port_status
        &&& s.model_count == match self.models_cache {
            Some(c) => if c.fresh_at(now) {
                Some(c.models@.len() as usize)
            } else {
                None
            },
            None => None,
        }
    }

    /// `port_status` is how it stands with the port at the moment.
    pub fn snapshot(&self, port_status: PortStatus, now: u64) -> (r: Snapshot)
        ensures
            self.is_shown_by(r, port_status, now),
    {
        let cfg = &self.config;
        let model_count = match &self.models_cache {
            Some(c) => {
                if c.is_fresh(now) {
                    Some(c.models.len())
                } else {
                    None
                }
            },
            None => None,
        };
        Snapshot {
            configured: cfg.is_configured(),
            first_run: self.first_run,
            running: self.is_running(),
            port: self.port(),
            base_url: self.base_url(),
            auto_start: cfg.auto_start,
            fabrix_base_url: cfg.normalized_base_url(),
            default_model_alias: cfg.default_model_alias.clone(),
            insecure_skip_verify: cfg.insecure_skip_verify,
            token_mode: cfg.token_mode,
            issued_token: if cfg.token_mode {
                cfg.issued_token.clone()
            } else {
                "".to_owned()
            },
            stats: self.stats.copy(),
            recent: self.logs.recent(RECENT),
            port_status,
            model_count,
        }
    }

    /// Counts a call and keeps its entry.
    pub fn record(&mut self, entry: LogEntry, today: &str)
        ensures
            final(self).stats@ == old(self).stats@.on_day(today@).counting(entry.kind, entry.ts@),
            final(self).logs@ == seq![entry] + (if old(self).logs@.len() >= CAPACITY {
                old(self).logs@.drop_last()
            } else {
                old(self).logs@
            }),
            old(self).wf() ==> final(self).wf(),
            *final(self) == (AppState {
                stats: final(self).stats,
                logs: final(self).logs,
                ..*old(self)
            }),
    {
        self.stats.count(entry.kind, entry.ts.as_str(), today);
        self.logs.push(entry);
    }

    /// The figures are due to be written.
    pub open spec fn flush_owed(self, force: bool, now: u64) -> bool {
        force || match self.stats_flushed_at {
            Some(at) => now - at >= STATS_FLUSH_INTERVAL,
            None => true,
        }
    }

    /// Whether the figures are to be written now. If so, that is taken note of.
    pub fn flush_due(&mut self, force: bool, now: u64) -> (r: bool)
        ensures
            r == old(self).flush_owed(force, now),
            *final(self) == (if r {
                AppState { stats_flushed_at: Some(now), ..*old(self) }
            } else {
                *old(self)
            }),
    {
        let due = force || match self.stats_flushed_at {
            Some(at) => now >= at && now - at >= STATS_FLUSH_INTERVAL,
            None => true,
        };
        if due {
            self.stats_flushed_at = Some(now);
        }
        due
    }

    /// A notice is shown. The number tells it from later ones.
    pub fn show_notice(&mut self) -> (r: u64)
        ensures
            r == final(self).toast_gen,
            r == (if old(self).toast_gen == u64::MAX {
                0
            } else {
                (old(self).toast_gen + 1) as u64
            }),
            *final(self) == (AppState { toast_gen: final(self).toast_gen, ..*old(self) }),
    {
        self.toast_gen = if self.toast_gen == u64::MAX {
            0
        } else {
            self.toast_gen + 1
        };
        self.toast_gen
    }

    /// Whether a notice may be taken down: not if a later one has taken its place.
    pub fn may_hide_notice(&self, shown: u64) -> (r: bool)
        ensures
            r == (self.toast_gen == shown),
    {
        self.toast_gen == shown
    }
}

} // verus!
