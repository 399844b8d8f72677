//! Log settings, log lines and the buffering of log output.
use crate::clock::Instant;
use crate::number;
use vstd::prelude::*;
use vstd::string::*;
use vstd::utf8::*;

verus! {

/// How much is logged.
#[derive(Clone, Copy, Debug, PartialEq, Eq, Structural)]
pub enum Level {
    Trace,
    Debug,
    Info,
    Warn,
    Error,
}

/// Configuration of the log output.
#[derive(Debug)]
pub struct LoggingConfig {
    pub access_log: Option<String>,
    pub error_log: Option<String>,
    pub level: Level,
    pub enabled: bool,
}

impl LoggingConfig {
    /// Nothing is written to files, and the console gets what is of interest.
    pub open spec fn is_initial(self) -> bool {
        self.access_log is None && self.error_log is None && self.level == Level::Info
            && !self.enabled
    }
}

impl Default for LoggingConfig {
    fn default() -> (r: Self)
        ensures
            r.is_initial(),
    {
        LoggingConfig { access_log: None, error_log: None, level: Level::Info, enabled: false }
    }
}

/// What an access log line tells.
pub struct AccessV {
    pub timestamp: Seq<char>,
    pub method: Seq<char>,
    pub uri: Seq<char>,
    pub status: u16,
    pub upstream: Seq<char>,
    pub elapsed_ms: u64,
    pub http_version: Seq<char>,
    pub user_agent: Seq<char>,
    pub referer: Seq<char>,
    pub cache_status: Seq<char>,
}

/// A request that was answered.
#[derive(Debug)]
pub struct LogEntry {
    pub method: String,
    pub uri: String,
    pub status: u16,
    pub upstream: String,
    pub elapsed_ms: u64,
    pub http_version: String,
    pub user_agent: String,
    pub referer: String,
    pub cache_status: String,
}

impl LogEntry {
    /// The contents of the entry, logged at a time.
    pub open spec fn at(self, timestamp: Seq<char>) -> AccessV {
        AccessV {
            timestamp,
            method: self.method@,
            uri: self.uri@,
            status: self.status,
            upstream: self.upstream@,
            elapsed_ms: self.elapsed_ms,
            http_version: self.http_version@,
            user_agent: self.user_agent@,
            referer: self.referer@,
            cache_status: self.cache_status@,
        }
    }
}

/// The line that the access log gets.
pub open spec fn access_line(a: AccessV) -> Seq<char> {
    "timestamp="@ + a.timestamp + " method="@ + a.method + " uri="@ + a.uri + " status="@
        + number::decimal(a.status as nat) + " upstream="@ + a.upstream + " elapsed_ms="@
        + number::decimal(a.elapsed_ms as nat) + " http_version="@ + a.http_version
        + " user_agent="@ + a.user_agent + " referer="@ + a.referer + " cache="@ + a.cache_status
}

impl LogEntry {
    /// The line that the access log gets for the entry.
    pub fn line(&self, timestamp: &str) -> (r: String)
        ensures
            r@ == access_line(self.at(timestamp@)),
    {
        let status = number::decimal_text(self.status as u128);
        let elapsed = number::decimal_text(self.elapsed_ms as u128);
        String::from_str("timestamp=").concat(timestamp).concat(" method=").concat(
            self.method.as_str(),
        ).concat(" uri=").concat(self.uri.as_str()).concat(" status=").concat(
            status.as_str(),
        ).concat(" upstream=").concat(self.upstream.as_str()).concat(" elapsed_ms=").concat(
            elapsed.as_str(),
        ).concat(" http_version=").concat(self.http_version.as_str()).concat(
            " user_agent=",
        ).concat(self.user_agent.as_str()).concat(" referer=").concat(
            self.referer.as_str(),
        ).concat(" cache=").concat(self.cache_status.as_str())
    }
}

/// How many bytes the writer holds back at most.
pub const FLUSH_SIZE: usize = 32768;

/// How long the writer holds lines back at most, in nanoseconds.
pub const FLUSH_NANOS: u64 = 100_000_000;

/// The lines that a log writer holds back.
#[derive(Debug)]
pub struct LogBuffer {
    pub buffer: Vec<u8>,
    pub last_flush: Instant,
}

/// A message as it goes to the file.
pub open spec fn log_bytes(content: Seq<char>) -> Seq<u8> {
    encode_utf8(content).push(10u8)
}

/// Whether what is held back has to be written at `now`.
pub open spec fn flush_due(held: Seq<u8>, last_flush: Instant, now: Instant) -> bool {
    held.len() > FLUSH_SIZE || now.nanos > last_flush.nanos + FLUSH_NANOS
}

impl LogBuffer {
    /// The writer once it has written so much.
    pub open spec fn writer(self, written: Seq<u8>) -> WriterV {
        WriterV { written, held: self.buffer@, last_flush: self.last_flush }
    }

    /// A writer that has nothing to write.
    pub fn new(now: Instant) -> (r: Self)
        ensures
            r.buffer@ == Seq::<u8>::empty(),
            r.last_flush == now,
    {
        LogBuffer { buffer: Vec::new(), last_flush: now }
    }

    /// Takes a message. What is to be written now is returned; where nothing is returned, all is
    /// held back.
    pub fn push(&mut self, content: &str, now: Instant) -> (r: Option<Vec<u8>>)
        ensures
            ({
                let held = old(self).buffer@ + log_bytes(content@);
                if flush_due(held, old(self).last_flush, now) {
                    r matches Some(out) && out@ == held && final(self).buffer@ == Seq::<
                        u8,
                    >::empty() && final(self).last_flush == now
                } else {
                    r is None && final(self).buffer@ == held && final(self).last_flush == old(
                        self,
                    ).last_flush
                }
            }),
            forall|written: Seq<u8>| #[trigger]
                after_message(old(self).writer(written), content@, now) == final(self).writer(
                    match r {
                        Some(out) => written + out@,
                        None => written,
                    },
                ),
    {
        self.buffer.extend_from_slice(content.as_bytes());
        self.buffer.push(10u8);
        assert(self.buffer@ =~= old(self).buffer@ + log_bytes(content@));
        let since: u64 = if now.nanos > self.last_flush.nanos {
            now.nanos - self.last_flush.nanos
        } else {
            0
        };
        if self.buffer.len() > FLUSH_SIZE || since > FLUSH_NANOS {
            let mut out: Vec<u8> = Vec::new();
            core::mem::swap(&mut out, &mut self.buffer);
            self.last_flush = now;
            Some(out)
        } else {
            None
        }
    }

    /// Ends the writer. What is held back is returned, to be written; nothing where there is none.
    pub fn shutdown(self) -> (r: Option<Vec<u8>>)
        ensures
            match r {
                Some(out) => self.buffer@.len() > 0 && out@ == self.buffer@,
                None => self.buffer@.len() == 0,
            },
    {
        if self.buffer.len() > 0 {
            Some(self.buffer)
        } else {
            None
        }
    }
}

/// The writer once it has taken messages: what it has written and what it holds back.
pub struct WriterV {
    pub written: Seq<u8>,
    pub held: Seq<u8>,
    pub last_flush: Instant,
}

/// The writer after one message.
pub open spec fn after_message(w: WriterV, content: Seq<char>, now: Instant) -> WriterV {
    let held = w.held + log_bytes(content);
    if flush_due(held, w.last_flush, now) {
        WriterV { written: w.written + held, held: Seq::empty(), last_flush: now }
    } else {
        WriterV { held, ..w }
    }
}

/// The writer after several messages, each at its time.
pub open spec fn after_messages(w: WriterV, messages: Seq<(Seq<char>, Instant)>) -> WriterV
    decreases messages.len(),
{
    if messages.len() == 0 {
        w
    } else {
        after_message(
            after_messages(w, messages.drop_last()),
            messages.last().0,
            messages.last().1,
        )
    }
}

/// All messages as they go to the file, in order.
pub open spec fn all_bytes(messages: Seq<(Seq<char>, Instant)>) -> Seq<u8>
    decreases messages.len(),
{
    if messages.len() == 0 {
        Seq::empty()
    } else {
        all_bytes(messages.drop_last()) + log_bytes(messages.last().0)
    }
}

/// The writer loses nothing and changes no order: what it has written and what it holds back are
/// the messages it has taken, one line each.
pub proof fn law_writer_loses_nothing(w: WriterV, messages: Seq<(Seq<char>, Instant)>)
    ensures
        after_messages(w, messages).written + after_messages(w, messages).held == w.written
            + w.held + all_bytes(messages),
    decreases messages.len(),
{
    if messages.len() == 0 {
        assert(w.written + w.held + all_bytes(messages) =~= w.written + w.held);
    } else {
        let front = messages.drop_last();
        law_writer_loses_nothing(w, front);
        let v = after_messages(w, front);
        let line = log_bytes(messages.last().0);
        assert(v.written + (v.held + line) =~= (v.written + v.held) + line);
        assert(w.written + w.held + all_bytes(front) + line =~= w.written + w.held + (all_bytes(
            front,
        ) + line));
        let u = after_messages(w, messages);
        assert(u.written + u.held =~= v.written + (v.held + line));
    }
}

} // verus!
