//! The most recent calls, and what is kept of each. All of it stays in memory.

use std::collections::VecDeque;

use vstd::prelude::*;
use vstd::string::*;
use vstd::utf8::*;

use crate::bytes::{bytes_of, lossy, utf8_lossy};
use crate::ids::{random_uuid, uuid_shape};
use crate::openai::{copy_text, opt_text};
use crate::text::{
    chars_of, dec, dec_u64, head, is_white, split_at_char, split_once, string_of, trim, trimmed,
    white,
};

verus! {

/// How many calls are kept.
pub const CAPACITY: usize = 50;

#[derive(Debug, Clone, Copy, PartialEq, Eq, Structural)]
pub enum Kind {
    Chat,
    Models,
    Images,
}

impl Kind {
    pub open spec fn method_view(self) -> Seq<char> {
        match self {
            Kind::Chat => "POST"@,
            Kind::Models => "GET"@,
            Kind::Images => "POST"@,
        }
    }

    pub fn method(self) -> (r: &'static str)
        ensures
            r@ == self.method_view(),
    {
        match self {
            Kind::Chat => "POST",
            Kind::Models => "GET",
            Kind::Images => "POST",
        }
    }

    pub open spec fn path_view(self) -> Seq<char> {
        match self {
            Kind::Chat => "/v1/chat/completions"@,
            Kind::Models => "/v1/models"@,
            Kind::Images => "/v1/images/generations"@,
        }
    }

    /// The path that stands for the kind.
    pub fn path(self) -> (r: &'static str)
        ensures
            r@ == self.path_view(),
    {
        match self {
            Kind::Chat => "/v1/chat/completions",
            Kind::Models => "/v1/models",
            Kind::Images => "/v1/images/generations",
        }
    }
}

/// One call.
#[derive(Debug)]
pub struct LogEntry {
    pub id: String,
    /// `HH:MM`.
    pub ts: String,
    pub ts_full: String,
    pub kind: Kind,
    pub method: &'static str,
    /// The path that was called.
    pub path: String,
    pub status: u16,
    pub latency_ms: u64,
    pub stream: bool,
    pub cached: bool,
    /// The model's name as the client sent it.
    pub model_requested: Option<String>,
    pub model_alias: Option<String>,
    pub model_id: Option<String>,
    pub model_label: Option<String>,
    pub client: Option<String>,
    pub note: Option<String>,
    pub summary: Option<String>,
    pub is_error: bool,
    /// The request as it came.
    pub req_openai: String,
    /// The request as it was sent on.
    pub req_fabrix: String,
    pub req_fabrix_headers: String,
    pub fabrix_url: String,
    /// The response, in full.
    pub resp_body: String,
    pub resp_meta: String,
    /// The bytes on the wire.
    pub raw: RawWire,
}

/// What tells one call from another: its id, when it came and how long it took.
#[derive(Debug)]
pub struct Stamp {
    pub id: String,
    pub ts: String,
    pub ts_full: String,
    pub latency_ms: u64,
}

impl Stamp {
    /// A stamp with an id of its own.
    pub fn new(ts: String, ts_full: String, latency_ms: u64) -> (r: Stamp)
        ensures
            uuid_shape(r.id@),
            r.ts == ts,
            r.ts_full == ts_full,
            r.latency_ms == latency_ms,
    {
        Stamp { id: random_uuid(), ts, ts_full, latency_ms }
    }
}

impl LogEntry {
    pub open spec fn stamped(self, s: Stamp) -> bool {
        &&& self.id == s.id
        &&& self.ts == s.ts
        &&& self.ts_full == s.ts_full
        &&& self.latency_ms == s.latency_ms
    }

    /// What the entry tells of the outcome.
    pub open spec fn tells(
        self,
        status: u16,
        is_error: bool,
        note: Option<Seq<char>>,
        summary: Option<Seq<char>>,
        body: Seq<char>,
        meta: Seq<char>,
    ) -> bool {
        &&& self.status == status
        &&& self.is_error == is_error
        &&& opt_text(self.note) == note
        &&& opt_text(self.summary) == summary
        &&& self.resp_body@ == body
        &&& self.resp_meta@ == meta
    }
}

/// How much is kept of each side of the wire.
pub const RAW_CAP: usize = 256 * 1024;

/// Both sides of the wire. Whether a side was kept is told for each.
#[derive(Debug)]
pub struct RawWire {
    pub upstream_captured: bool,
    pub client_captured: bool,
    /// What the gateway sent.
    pub upstream: String,
    /// What the client was sent.
    pub client: String,
}

impl RawWire {
    pub fn copy(&self) -> (r: RawWire)
        ensures
            r == *self,
    {
        RawWire {
            upstream_captured: self.upstream_captured,
            client_captured: self.client_captured,
            upstream: self.upstream.clone(),
            client: self.client.clone(),
        }
    }

    pub open spec fn empty(self) -> bool {
        &&& !self.upstream_captured
        &&& !self.client_captured
        &&& self.upstream@.len() == 0
        &&& self.client@.len() == 0
    }
}

impl Default for RawWire {
    fn default() -> (r: RawWire)
        ensures
            r.empty(),
    {
        RawWire {
            upstream_captured: false,
            client_captured: false,
            upstream: String::new(),
            client: String::new(),
        }
    }
}

impl LogEntry {
    pub fn copy(&self) -> (r: LogEntry)
        ensures
            r == *self,
    {
        self.with_raw(self.raw.copy())
    }

    /// The entry with another record of the wire.
    fn with_raw(&self, raw: RawWire) -> (r: LogEntry)
        ensures
            r == (LogEntry { raw, ..*self }),
    {
        LogEntry {
            id: self.id.clone(),
            ts: self.ts.clone(),
            ts_full: self.ts_full.clone(),
            kind: self.kind,
            method: self.method,
            path: self.path.clone(),
            status: self.status,
            latency_ms: self.latency_ms,
            stream: self.stream,
            cached: self.cached,
            model_requested: copy_text(&self.model_requested),
            model_alias: copy_text(&self.model_alias),
            model_id: copy_text(&self.model_id),
            model_label: copy_text(&self.model_label),
            client: copy_text(&self.client),
            note: copy_text(&self.note),
            summary: copy_text(&self.summary),
            is_error: self.is_error,
            req_openai: self.req_openai.clone(),
            req_fabrix: self.req_fabrix.clone(),
            req_fabrix_headers: self.req_fabrix_headers.clone(),
            fabrix_url: self.fabrix_url.clone(),
            resp_body: self.resp_body.clone(),
            resp_meta: self.resp_meta.clone(),
            raw,
        }
    }

    /// `lean` is this entry without the bytes on the wire.
    pub open spec fn without_wire(self, lean: LogEntry) -> bool {
        &&& lean == (LogEntry { raw: lean.raw, ..self })
        &&& lean.raw.upstream_captured == self.raw.upstream_captured
        &&& lean.raw.client_captured == self.raw.client_captured
        &&& lean.raw.upstream@.len() == 0
        &&& lean.raw.client@.len() == 0
    }
}

// ───────────────────────── one side of the wire ─────────────────────────

/// Collects one side of the wire, up to [`RAW_CAP`] bytes. It keeps bytes, so that a
/// character cut in half by a chunk comes out whole.
#[derive(Debug)]
pub struct RawBuf {
    enabled: bool,
    bytes: Vec<u8>,
    dropped: usize,
}

pub struct RawView {
    pub enabled: bool,
    pub bytes: Seq<u8>,
    /// How many bytes did not fit.
    pub dropped: usize,
}

impl RawView {
    pub open spec fn room(self) -> nat {
        if self.bytes.len() < RAW_CAP {
            (RAW_CAP - self.bytes.len()) as nat
        } else {
            0
        }
    }

    pub open spec fn pushed(self, chunk: Seq<u8>) -> RawView {
        if !self.enabled {
            self
        } else if chunk.len() <= self.room() {
            RawView { bytes: self.bytes + chunk, ..self }
        } else {
            RawView {
                bytes: self.bytes + chunk.take(self.room() as int),
                dropped: self.dropped.wrapping_add((chunk.len() - self.room()) as usize),
                ..self
            }
        }
    }

    pub open spec fn shown(self) -> Seq<char> {
        if self.dropped > 0 {
            utf8_lossy(self.bytes) + "\n\n…(상한 "@ + dec((RAW_CAP / 1024) as nat) + "KiB 를 넘어 "@ + dec(
                self.dropped as nat,
            ) + "바이트를 버렸습니다)"@
        } else {
            utf8_lossy(self.bytes)
        }
    }
}

impl View for RawBuf {
    type V = RawView;

    closed spec fn view(&self) -> RawView {
        RawView { enabled: self.enabled, bytes: self.bytes@, dropped: self.dropped }
    }
}

impl RawBuf {
    pub fn new(enabled: bool) -> (r: Self)
        ensures
            r@ == (RawView { enabled, bytes: seq![], dropped: 0 }),
    {
        let r = RawBuf { enabled, bytes: Vec::new(), dropped: 0 };
        assert(r.bytes@ =~= seq![]);
        r
    }

    pub fn enabled(&self) -> (r: bool)
        ensures
            r == self@.enabled,
    {
        self.enabled
    }

    pub fn push(&mut self, chunk: &[u8])
        ensures
            final(self)@ == old(self)@.pushed(chunk@),
    {
        if !self.enabled {
            return;
        }
        let n: usize = chunk.len();
        let held: usize = self.bytes.len();
        let room: usize = if held < RAW_CAP {
            RAW_CAP - held
        } else {
            0
        };
        let ghost before = self.bytes@;
        if n <= room {
            let mut all = bytes_of(chunk, 0, n);
            self.bytes.append(&mut all);
            assert(self.bytes@ =~= before + chunk@);
        } else {
            let mut part = bytes_of(chunk, 0, room);
            self.bytes.append(&mut part);
            self.dropped = self.dropped.wrapping_add(n - room);
            assert(self.bytes@ =~= before + chunk@.take(room as int));
        }
    }

    pub fn push_str(&mut self, text: &str)
        ensures
            final(self)@ == old(self)@.pushed(encode_utf8(text@)),
    {
        self.push(text.as_bytes());
    }

    /// What was collected. Where something did not fit, it says so.
    pub fn text(&self) -> (r: String)
        ensures
            r@ == self@.shown(),
    {
        let mut out = lossy(self.bytes.as_slice());
        if self.dropped > 0 {
            out.append("\n\n…(상한 ");
            out.append(dec_u64((RAW_CAP / 1024) as u64).as_str());
            out.append("KiB 를 넘어 ");
            out.append(dec_u64(self.dropped as u64).as_str());
            out.append("바이트를 버렸습니다)");
        }
        out
    }
}

/// The cap is kept.
pub proof fn law_wire_is_capped(v: RawView, chunk: Seq<u8>)
    requires
        v.bytes.len() <= RAW_CAP,
    ensures
        v.pushed(chunk).bytes.len() <= RAW_CAP,
{
}

/// Where the bytes are cut into chunks makes no difference. (The count of what did
/// not fit is a machine word; its overflow is kept out of reach.)
pub proof fn law_wire_chunks_do_not_matter(v: RawView, a: Seq<u8>, b: Seq<u8>)
    requires
        v.bytes.len() <= RAW_CAP,
        v.dropped + a.len() + b.len() <= usize::MAX,
    ensures
        v.pushed(a).pushed(b) == v.pushed(a + b),
{
    let one = v.pushed(a).pushed(b);
    let all = v.pushed(a + b);
    assert(one.bytes =~= all.bytes);
}

// ───────────────────────── the calls ─────────────────────────

/// The most recent calls, the latest first.
#[derive(Debug)]
pub struct LogStore {
    entries: VecDeque<LogEntry>,
}

impl View for LogStore {
    type V = Seq<LogEntry>;

    closed spec fn view(&self) -> Seq<LogEntry> {
        self.entries@
    }
}

impl Default for LogStore {
    fn default() -> (r: LogStore)
        ensures
            r@ == Seq::<LogEntry>::empty(),
    {
        LogStore { entries: VecDeque::new() }
    }
}

impl LogStore {
    /// There are no more than [`CAPACITY`] calls. A new store is so, and every method
    /// keeps it so.
    pub open spec fn within_capacity(self) -> bool {
        self@.len() <= CAPACITY
    }

    /// Adds a call; where there are [`CAPACITY`] already, the oldest one goes.
    pub fn push(&mut self, entry: LogEntry)
        ensures
            final(self)@ == seq![entry] + (if old(self)@.len() >= CAPACITY {
                old(self)@.drop_last()
            } else {
                old(self)@
            }),
            old(self).within_capacity() ==> final(self).within_capacity(),
    {
        let ghost before = self@;
        if self.entries.len() >= CAPACITY {
            self.entries.pop_back();
        }
        self.entries.push_front(entry);
        assert(self@ =~= seq![entry] + (if before.len() >= CAPACITY {
            before.drop_last()
        } else {
            before
        }));
    }

    /// All calls, the latest first.
    pub fn snapshot(&self) -> (r: Vec<LogEntry>)
        ensures
            r@ == self@,
    {
        let n: usize = self.entries.len();
        let mut out: Vec<LogEntry> = Vec::new();
        let mut i: usize = 0;
        while i < n
            invariant
                i <= n == self.entries@.len(),
                out@ == self.entries@.take(i as int),
            decreases n - i,
        {
            out.push(self.entries[i].copy());
            assert(out@ =~= self.entries@.take(i + 1));
            i += 1;
        }
        assert(out@ =~= self@);
        out
    }

    /// The latest `n` calls, without the bytes on the wire.
    pub fn recent(&self, n: usize) -> (r: Vec<LogEntry>)
        ensures
            r@.len() == (if n < self@.len() {
                n as nat
            } else {
                self@.len()
            }),
            forall|i: int| 0 <= i < r@.len() ==> self@[i].without_wire(#[trigger] r@[i]),
    {
        let held: usize = self.entries.len();
        let to: usize = if n < held {
            n
        } else {
            held
        };
        let mut out: Vec<LogEntry> = Vec::new();
        let mut i: usize = 0;
        while i < to
            invariant
                i <= to <= self.entries@.len(),
                out@.len() == i,
                forall|k: int| 0 <= k < i ==> self.entries@[k].without_wire(#[trigger] out@[k]),
            decreases to - i,
        {
            let e = &self.entries[i];
            let raw = RawWire {
                upstream_captured: e.raw.upstream_captured,
                client_captured: e.raw.client_captured,
                upstream: String::new(),
                client: String::new(),
            };
            out.push(e.with_raw(raw));
            i += 1;
        }
        out
    }

    pub fn clear(&mut self)
        ensures
            final(self)@ == Seq::<LogEntry>::empty(),
    {
        self.entries.clear();
    }
}

// ───────────────────────── short texts ─────────────────────────

/// The text before the first white space.
pub open spec fn first_word(s: Seq<char>) -> Seq<char>
    decreases s.len(),
{
    if s.len() == 0 || white(s[0]) {
        seq![]
    } else {
        seq![s[0]] + first_word(s.drop_first())
    }
}

/// The product name at the head of a `User-Agent`.
pub open spec fn client_view(ua: Option<Seq<char>>) -> Option<Seq<char>> {
    match ua {
        None => None,
        Some(s) => {
            let word = first_word(trim(s));
            let name = match split_at_char(word, '/') {
                Some((name, _)) => name,
                None => word,
            };
            if name.len() == 0 {
                None
            } else {
                Some(head(name, 24))
            }
        },
    }
}

proof fn lemma_first_word(s: Seq<char>, k: int)
    requires
        0 <= k <= s.len(),
        forall|i: int| 0 <= i < k ==> !white(#[trigger] s[i]),
        k < s.len() ==> white(s[k]),
    ensures
        first_word(s) == s.take(k),
    decreases k,
{
    if k > 0 {
        let rest = s.drop_first();
        assert forall|i: int| 0 <= i < k - 1 implies !white(#[trigger] rest[i]) by {
            assert(rest[i] == s[i + 1]);
        }
        lemma_first_word(rest, k - 1);
        assert(seq![s[0]] + rest.take(k - 1) =~= s.take(k));
    } else {
        assert(s.take(0) =~= seq![]);
    }
}

pub fn short_client(ua: Option<&str>) -> (r: Option<String>)
    ensures
        opt_text(r) == client_view(
            match ua {
                Some(s) => Some(s@),
                None => None,
            },
        ),
{
    let ua = match ua {
        Some(s) => trimmed(s),
        None => {
            return None;
        },
    };
    let cs = chars_of(ua);
    let mut k: usize = 0;
    while k < cs.len() && !is_white(cs[k])
        invariant
            k <= cs@.len(),
            forall|i: int| 0 <= i < k ==> !white(#[trigger] cs@[i]),
        decreases cs@.len() - k,
    {
        k += 1;
    }
    let word = string_of(&cs, 0, k);
    proof {
        lemma_first_word(cs@, k as int);
        assert(word@ =~= cs@.take(k as int));
    }
    let name = match split_once(word.as_str(), '/') {
        Some((name, _)) => name,
        None => word.as_str(),
    };
    if name.is_empty() {
        return None;
    }
    let ns = chars_of(name);
    let to: usize = if ns.len() <= 24 {
        ns.len()
    } else {
        24
    };
    let short = string_of(&ns, 0, to);
    assert(short@ =~= head(name@, 24));
    Some(short)
}

/// The beginning of a text: at most `limit` characters, and `…` where it goes on.
pub open spec fn preview_view(text: Seq<char>, limit: nat) -> Seq<char> {
    let t = trim(text);
    if t.len() <= limit {
        t
    } else {
        t.take(limit as int) + "…"@
    }
}

pub fn preview(text: &str, limit: usize) -> (r: String)
    ensures
        r@ == preview_view(text@, limit as nat),
{
    let t = trimmed(text);
    let cs = chars_of(t);
    if cs.len() <= limit {
        return t.to_owned();
    }
    let mut out = string_of(&cs, 0, limit);
    assert(out@ =~= t@.take(limit as int));
    out.append("…");
    out
}

} // verus!
