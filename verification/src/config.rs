//! The settings and the daily figures.

use vstd::prelude::*;
use vstd::string::*;

use crate::ids::{all_hex, hex_digit, random_hex};
use crate::logstore::Kind;
use crate::openai::opt_text;
use crate::text::{
    blank, chars_of, find, is_blank, lemma_find, position_of, same, string_of, trim, trimmed,
};

verus! {

pub const DEFAULT_PORT: u16 = 8787;

#[derive(Debug, Clone)]
pub struct Config {
    /// The gateway's origin.
    pub fabrix_base_url: String,
    /// The `x-fabrix-client` header.
    pub fabrix_client: String,
    /// The `x-openapi-token` header.
    pub openapi_token: String,
    pub port: u16,
    /// The proxy starts with the program.
    pub auto_start: bool,
    /// The model for requests that name none.
    pub default_model_alias: String,
    pub insecure_skip_verify: bool,
    /// Clients must present the issued token.
    pub token_mode: bool,
    pub issued_token: String,
    /// The text model that goes with an image model.
    pub image_text_model: String,
    pub image_model: String,
    pub vision_model: String,
    /// Images are placeholders.
    pub image_stub_mode: bool,
    /// Tools become a convention in the prompt.
    pub tool_emulation: bool,
    /// What the client is sent is kept in the log.
    pub raw_wire_log: bool,
}

impl Config {
    /// All settings but those of the connection are as they are by default.
    pub open spec fn otherwise_default(self) -> bool {
        &&& self.port == DEFAULT_PORT
        &&& self.auto_start
        &&& self.default_model_alias@ == ""@
        &&& !self.insecure_skip_verify
        &&& !self.token_mode
        &&& self.issued_token@ == ""@
        &&& self.image_text_model@ == ""@
        &&& self.image_model@ == ""@
        &&& self.vision_model@ == ""@
        &&& !self.image_stub_mode
        &&& self.tool_emulation
        &&& self.raw_wire_log
    }
}

impl Default for Config {
    fn default() -> (r: Config)
        ensures
            r.fabrix_base_url@ == ""@,
            r.fabrix_client@ == ""@,
            r.openapi_token@ == ""@,
            r.otherwise_default(),
    {
        Config {
            fabrix_base_url: "".to_owned(),
            fabrix_client: "".to_owned(),
            openapi_token: "".to_owned(),
            port: DEFAULT_PORT,
            auto_start: true,
            default_model_alias: "".to_owned(),
            insecure_skip_verify: false,
            token_mode: false,
            issued_token: "".to_owned(),
            image_text_model: "".to_owned(),
            image_model: "".to_owned(),
            vision_model: "".to_owned(),
            image_stub_mode: false,
            tool_emulation: true,
            raw_wire_log: true,
        }
    }
}

/// `sk-` and 48 hexadecimal digits.
pub open spec fn token_shape(s: Seq<char>) -> bool {
    s.len() == 51 && s.take(3) == "sk-"@ && all_hex(s.skip(3))
}

/// The token out of two draws of 32 digits: the first 48 digits count.
pub fn token_of(a: &str, b: &str) -> (r: String)
    requires
        a@.len() == 32,
        b@.len() == 32,
    ensures
        r@ == "sk-"@ + (a@ + b@).take(48),
        all_hex(a@) && all_hex(b@) ==> token_shape(r@),
{
    let mut out = "sk-".to_owned();
    out.append(a);
    out.append(b.substring_char(0, 16));
    proof {
        reveal_strlit("sk-");
        let digits = (a@ + b@).take(48);
        assert(out@ =~= "sk-"@ + digits);
        assert(out@.take(3) =~= "sk-"@);
        assert(out@.skip(3) =~= digits);
        if all_hex(a@) && all_hex(b@) {
            assert forall|i: int| 0 <= i < digits.len() implies hex_digit(#[trigger] digits[i]) by {
                if i < 32 {
                    assert(digits[i] == a@[i]);
                } else {
                    assert(digits[i] == b@[i - 32]);
                }
            }
        }
    }
    out
}

/// A new token in OpenAI's form: [`token_of`] two draws. Which ones is left to chance.
pub fn generate_token() -> (r: String)
    ensures
        token_shape(r@),
{
    let a = random_hex();
    let b = random_hex();
    token_of(a.as_str(), b.as_str())
}

// ───────────────────────── reading the settings ─────────────────────────

/// `s` without slashes at its end.
pub open spec fn without_slashes(s: Seq<char>) -> Seq<char>
    decreases s.len(),
{
    if s.len() > 0 && s.last() == '/' {
        without_slashes(s.drop_last())
    } else {
        s
    }
}

/// The origin in an address: without slashes at its end, and without the gateway's
/// path, should it have been pasted along.
pub open spec fn origin(s: Seq<char>) -> Seq<char> {
    let base = without_slashes(trim(s));
    match find(base, "/openapi"@) {
        Some(i) => base.take(i),
        None => base,
    }
}

/// A secret, but for its last three characters.
pub open spec fn masked(s: Seq<char>) -> Seq<char> {
    let t = trim(s);
    if t.len() == 0 {
        "(미설정)"@
    } else if t.len() <= 3 {
        "●●●●"@ + t
    } else {
        "●●●●"@ + t.skip(t.len() - 3)
    }
}

impl Config {
    pub open spec fn configured(self) -> bool {
        !blank(self.fabrix_base_url@) && !blank(self.fabrix_client@) && !blank(self.openapi_token@)
    }

    pub fn is_configured(&self) -> (r: bool)
        ensures
            r == self.configured(),
    {
        !is_blank(self.fabrix_base_url.as_str()) && !is_blank(self.fabrix_client.as_str())
            && !is_blank(self.openapi_token.as_str())
    }

    pub fn mask(secret: &str) -> (r: String)
        ensures
            r@ == masked(secret@),
    {
        let t = trimmed(secret);
        if t.is_empty() {
            return "(미설정)".to_owned();
        }
        let cs = chars_of(t);
        let n: usize = cs.len();
        let from: usize = if n <= 3 {
            0
        } else {
            n - 3
        };
        let tail = string_of(&cs, from, n);
        proof {
            if n <= 3 {
                assert(tail@ =~= t@);
            } else {
                assert(tail@ =~= t@.skip(t@.len() - 3));
            }
        }
        let mut out = "●●●●".to_owned();
        out.append(tail.as_str());
        out
    }

    pub fn normalized_base_url(&self) -> (r: String)
        ensures
            r@ == origin(self.fabrix_base_url@),
    {
        let mut base = chars_of(trimmed(self.fabrix_base_url.as_str()));
        let ghost full = base@;
        while base.len() > 0 && base[base.len() - 1] == '/'
            invariant
                without_slashes(full) == without_slashes(base@),
            decreases base@.len(),
        {
            base.pop();
        }
        proof {
            lemma_find(base@, "/openapi"@);
        }
        match position_of(&base, &chars_of("/openapi")) {
            Some(i) => {
                let r = string_of(&base, 0, i);
                assert(r@ =~= base@.take(i as int));
                r
            },
            None => {
                let r = string_of(&base, 0, base.len());
                assert(r@ =~= base@);
                r
            },
        }
    }

    /// The settings as they can be saved: with a port, and with a token where one is
    /// needed and there is none.
    pub fn ready_to_save(self) -> (r: Result<Config, String>)
        ensures
            match r {
                Ok(c) => {
                    &&& self.port != 0
                    &&& c == (Config { issued_token: c.issued_token, ..self })
                    &&& if self.token_mode && blank(self.issued_token@) {
                        token_shape(c.issued_token@)
                    } else {
                        c.issued_token == self.issued_token
                    }
                },
                Err(m) => self.port == 0 && m@ == "포트 번호가 올바르지 않습니다."@,
            },
    {
        if self.port == 0 {
            return Err("포트 번호가 올바르지 않습니다.".to_owned());
        }
        let mut out = self;
        if out.token_mode && is_blank(out.issued_token.as_str()) {
            out.issued_token = generate_token();
        }
        Ok(out)
    }
}

/// The text of a settings file without the byte order marks that some editors put
/// before it.
pub open spec fn without_marks(s: Seq<char>) -> Seq<char>
    decreases s.len(),
{
    if s.len() > 0 && s[0] == '\u{feff}' {
        without_marks(s.drop_first())
    } else {
        s
    }
}

pub fn skip_byte_order_mark(raw: &str) -> (r: &str)
    ensures
        r@ == without_marks(raw@),
{
    let cs = chars_of(raw);
    let n: usize = cs.len();
    let mut i: usize = 0;
    assert(raw@.skip(0) =~= raw@);
    while i < n && cs[i] == '\u{feff}'
        invariant
            i <= n == cs@.len(),
            cs@ == raw@,
            without_marks(raw@) == without_marks(raw@.skip(i as int)),
        decreases n - i,
    {
        assert(raw@.skip(i as int).drop_first() =~= raw@.skip(i + 1));
        i += 1;
    }
    let rest = raw.substring_char(i, n);
    assert(rest@ =~= raw@.skip(i as int));
    rest
}

// ───────────────────────── the daily figures ─────────────────────────

#[derive(Debug, Clone)]
pub struct Stats {
    /// `YYYY-MM-DD`.
    pub date: String,
    pub total: u64,
    pub chat: u64,
    pub models: u64,
    pub images: u64,
    /// `HH:MM`.
    pub last_call_at: Option<String>,
}

impl Default for Stats {
    fn default() -> (r: Stats)
        ensures
            r.date@ == ""@,
            r.total == 0,
            r.chat == 0,
            r.models == 0,
            r.images == 0,
            r.last_call_at is None,
    {
        Stats {
            date: "".to_owned(),
            total: 0,
            chat: 0,
            models: 0,
            images: 0,
            last_call_at: None,
        }
    }
}

pub struct StatsView {
    pub date: Seq<char>,
    pub total: u64,
    pub chat: u64,
    pub models: u64,
    pub images: u64,
    pub last_call_at: Option<Seq<char>>,
}

impl View for Stats {
    type V = StatsView;

    open spec fn view(&self) -> StatsView {
        StatsView {
            date: self.date@,
            total: self.total,
            chat: self.chat,
            models: self.models,
            images: self.images,
            last_call_at: opt_text(self.last_call_at),
        }
    }
}

impl StatsView {
    /// On a new day the counting starts over.
    pub open spec fn on_day(self, today: Seq<char>) -> StatsView {
        if self.date == today {
            self
        } else {
            StatsView {
                date: today,
                total: 0,
                chat: 0,
                models: 0,
                images: 0,
                last_call_at: None,
            }
        }
    }

    /// A call at `at` is counted.
    pub open spec fn counting(self, kind: Kind, at: Seq<char>) -> StatsView {
        StatsView {
            total: self.total.wrapping_add(1),
            chat: if kind == Kind::Chat {
                self.chat.wrapping_add(1)
            } else {
                self.chat
            },
            models: if kind == Kind::Models {
                self.models.wrapping_add(1)
            } else {
                self.models
            },
            images: if kind == Kind::Images {
                self.images.wrapping_add(1)
            } else {
                self.images
            },
            last_call_at: Some(at),
            ..self
        }
    }
}

impl Stats {
    pub fn roll_over(&mut self, today: &str)
        ensures
            final(self)@ == old(self)@.on_day(today@),
    {
        if !same(self.date.as_str(), today) {
            self.date = today.to_owned();
            self.total = 0;
            self.chat = 0;
            self.models = 0;
            self.images = 0;
            self.last_call_at = None;
        }
    }

    /// Counts a call.
    pub fn count(&mut self, kind: Kind, at: &str, today: &str)
        ensures
            final(self)@ == old(self)@.on_day(today@).counting(kind, at@),
    {
        self.roll_over(today);
        self.total = self.total.wrapping_add(1);
        match kind {
            Kind::Chat => {
                self.chat = self.chat.wrapping_add(1);
            },
            Kind::Models => {
                self.models = self.models.wrapping_add(1);
            },
            Kind::Images => {
                self.images = self.images.wrapping_add(1);
            },
        }
        self.last_call_at = Some(at.to_owned());
    }

    pub fn copy(&self) -> (r: Stats)
        ensures
            r@ == self@,
    {
        Stats {
            date: self.date.clone(),
            total: self.total,
            chat: self.chat,
            models: self.models,
            images: self.images,
            last_call_at: match &self.last_call_at {
                Some(s) => Some(s.clone()),
                None => None,
            },
        }
    }
}

/// The figures of the kinds add up to the total. Counting keeps it so, short of a
/// machine word's end.
pub proof fn law_figures_add_up(s: StatsView, kind: Kind, at: Seq<char>, today: Seq<char>)
    requires
        s.chat + s.models + s.images == s.total,
        s.total < u64::MAX,
    ensures
        ({
            let t = s.on_day(today).counting(kind, at);
            t.chat + t.models + t.images == t.total && t.date == today
        }),
{
}

} // verus!
