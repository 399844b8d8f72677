//! Configuration from a file in an Nginx-like format.
use crate::config::grammar;
use crate::config::internal;
use crate::config::internal::{
    Config, DiscoveryKind, FileServerConfig, HealthCheckKind, HttpPeer, ListenerConfig,
    ListenerKind, PathControl, ProxyConfig, RequestSelector, SelectionKind, Settings, TlsConfig,
    UpstreamOptions, ALPN,
};
use crate::number;
use crate::proxy::rate_limiting::{
    AllRateConfig, MultiRaterConfig, MultiRequestKeyKind, RateLimitingConfig, RefillInterval,
    RegexShim, SingleInstanceConfig, SingleRequestKeyKind,
};
use crate::text;
use crate::text_map::TextMap;
use crate::views;
use vstd::prelude::*;
use vstd::string::*;

verus! {

/// A stretch of the text, in bytes.
#[derive(Clone, Copy, Debug, PartialEq, Eq, Structural)]
pub struct SourceSpan {
    pub offset: usize,
    pub len: usize,
}

/// An error in a configuration text.
#[derive(Debug)]
pub struct NginxParseError {
    pub message: String,
    pub line: usize,
    pub source_code: String,
    pub span: SourceSpan,
}

impl View for NginxParseError {
    type V = grammar::ErrorV;

    open spec fn view(&self) -> grammar::ErrorV {
        grammar::ErrorV {
            message: self.message@,
            line: self.line as nat,
            source_code: self.source_code@,
            offset: self.span.offset as nat,
            len: self.span.len as nat,
        }
    }
}

impl NginxParseError {
    /// The error as a text.
    pub fn to_text(&self) -> (r: String)
        ensures
            r@ == "Nginx configuration error at line "@ + number::decimal(self.line as nat) + ": "@
                + self.message@,
    {
        let line = number::decimal_text(self.line as u128);
        String::from_str("Nginx configuration error at line ").concat(line.as_str()).concat(
            ": ",
        ).concat(self.message.as_str())
    }

    /// The error of a file that cannot be read.
    pub fn unreadable(cause: &str) -> (r: Self)
        ensures
            r@ == (grammar::ErrorV {
                message: "IO error: "@ + cause@,
                line: 0,
                source_code: Seq::empty(),
                offset: 0,
                len: 0,
            }),
    {
        NginxParseError {
            message: String::from_str("IO error: ").concat(cause),
            line: 0,
            source_code: String::new(),
            span: SourceSpan { offset: 0, len: 0 },
        }
    }
}

/// Why a text could not be read.
#[derive(Debug)]
pub enum NginxFault {
    /// It breaks a rule of the format.
    Error(NginxParseError),
    /// A line of a block holds nothing but semicolons where a directive is due.
    EmptyDirective,
}

impl View for NginxFault {
    type V = grammar::FaultV;

    open spec fn view(&self) -> grammar::FaultV {
        match self {
            NginxFault::Error(e) => grammar::FaultV::Error(e@),
            NginxFault::EmptyDirective => grammar::FaultV::EmptyDirective,
        }
    }
}

/// A group of backends and how they are used.
#[derive(Debug)]
struct Upstream {
    peers: Vec<HttpPeer>,
    options: UpstreamOptions,
}

impl View for Upstream {
    type V = grammar::UpstreamV;

    closed spec fn view(&self) -> grammar::UpstreamV {
        grammar::UpstreamV { peers: views::views(self.peers@), options: self.options }
    }
}

/// The contents of named groups of backends.
spec fn ups_view(m: Map<Seq<char>, Upstream>) -> Map<Seq<char>, grammar::UpstreamV> {
    m.map_values(|u: Upstream| u@)
}

/// A configuration read from a text.
pub struct Nginx {
    pub config: Config,
}

impl Nginx {
    /// Reads a configuration text.
    ///
    /// A text is left out in which reading comes to a line of the `system` block, a server or a
    /// location that holds nothing but semicolons; `from_string_checked` tells those apart.
    pub fn from_string(content: &str) -> (r: Result<Nginx, NginxParseError>)
        requires
            grammar::meaning(content@) != Err::<internal::ConfigV, _>(
                grammar::FaultV::EmptyDirective,
            ),
        ensures
            match grammar::meaning(content@) {
                Ok(c) => r matches Ok(n) && n.config@ == c && n.config.logging.is_initial(),
                Err(grammar::FaultV::Error(v)) => r matches Err(e) && e@ == v,
                Err(grammar::FaultV::EmptyDirective) => true,
            },
    {
        let mut parser = NginxParser::new(content);
        match parser.parse() {
            Ok(config) => Ok(Nginx { config }),
            Err(NginxFault::Error(e)) => Err(e),
            Err(NginxFault::EmptyDirective) => vstd::pervasive::unreached(),
        }
    }

    /// Reads a configuration text, or returns `None` where a directive of it is empty.
    pub fn from_string_checked(content: &str) -> (r: Option<Result<Nginx, NginxParseError>>)
        ensures
            match grammar::meaning(content@) {
                Ok(c) => r matches Some(Ok(n)) && n.config@ == c && n.config.logging.is_initial(),
                Err(grammar::FaultV::Error(v)) => r matches Some(Err(e)) && e@ == v,
                Err(grammar::FaultV::EmptyDirective) => r is None,
            },
    {
        let mut parser = NginxParser::new(content);
        match parser.parse() {
            Err(NginxFault::EmptyDirective) => None,
            _ => Some(Nginx::from_string(content)),
        }
    }
}

impl From<Nginx> for Config {
    fn from(nginx: Nginx) -> (r: Self) {
        nginx.config
    }
}

impl vstd::std_specs::convert::FromSpecImpl<Nginx> for Config {
    open spec fn obeys_from_spec() -> bool {
        true
    }

    open spec fn from_spec(nginx: Nginx) -> Self {
        nginx.config
    }
}

/// A parser of a configuration text.
struct NginxParser<'a> {
    content: &'a str,
    lines: Vec<(usize, &'a str)>,
    current_line: usize,
}

impl<'a> NginxParser<'a> {
    /// The parser holds the lines of its text that have content.
    spec fn well_formed(self) -> bool {
        let clean = grammar::clean_lines(self.content@);
        &&& self.lines@.len() == clean.len()
        &&& self.current_line <= self.lines@.len()
        &&& forall|i: int|
            0 <= i < clean.len() ==> (#[trigger] self.lines@[i]).0 == clean[i].number
                && self.lines@[i].1@ == clean[i].text && clean[i].number >= 1
    }

    /// Two states of a parser of one text.
    spec fn same_text(self, other: Self) -> bool {
        self.content == other.content && self.lines == other.lines
    }

    /// `line` is the directive before the current position, and `line_num` its number.
    spec fn at_line(self, line_num: usize, line: &str) -> bool {
        &&& self.well_formed()
        &&& self.current_line > 0
        &&& line_num >= 1
        &&& line_num == grammar::number_at(self.content@, (self.current_line - 1) as nat)
        &&& line@ == grammar::line_at(self.content@, (self.current_line - 1) as nat)
    }

    /// The text.
    spec fn source(self) -> Seq<char> {
        self.content@
    }

    /// The position of the next line.
    spec fn pos(self) -> nat {
        self.current_line as nat
    }

    /// Splits a text into its lines with content.
    fn new(content: &'a str) -> (r: Self)
        ensures
            r.well_formed(),
            r.content == content,
            r.current_line == 0,
    {
        let all = text::split_lines(content);
        let mut lines: Vec<(usize, &'a str)> = Vec::new();
        let ghost raw = text::texts(all@);
        let ghost clean = grammar::clean_lines(content@);
        let mut i: usize = 0;
        assert(raw.skip(0) =~= raw);
        while i < all.len()
            invariant
                i <= all@.len(),
                raw == text::texts(all@),
                clean == grammar::clean_from(raw, 1),
                lines@.len() <= clean.len(),
                clean.skip(lines@.len() as int) == grammar::clean_from(
                    raw.skip(i as int),
                    (i + 1) as nat,
                ),
                forall|k: int|
                    0 <= k < lines@.len() ==> (#[trigger] lines@[k]).0 == clean[k].number
                        && lines@[k].1@ == clean[k].text && clean[k].number >= 1,
            decreases all@.len() - i,
        {
            let line = text::trim(text::up_to_char(all[i], '#'));
            let ghost rest = grammar::clean_from(raw.skip(i + 1), (i + 2) as nat);
            assert(raw.skip(i as int)[0] == all@[i as int]@);
            assert(raw.skip(i as int).skip(1) =~= raw.skip(i + 1));
            if !line.is_empty() {
                proof {
                    let k = lines@.len() as int;
                    let whole = grammar::clean_from(raw.skip(i as int), (i + 1) as nat);
                    assert(whole == seq![grammar::Line { number: (i + 1) as nat, text: line@ }]
                        + rest);
                    assert(clean.skip(k).len() == clean.len() - k);
                    assert(clean[k] == clean.skip(k)[0]);
                    assert(clean.skip(k + 1) =~= clean.skip(k).skip(1));
                    assert(whole.skip(1) =~= rest);
                }
                lines.push((i + 1, line));
            }
            i = i + 1;
        }
        assert(raw.skip(i as int) =~= Seq::<Seq<char>>::empty());
        assert(clean.skip(lines@.len() as int).len() == 0);
        NginxParser { content, lines, current_line: 0 }
    }

    /// The next line with content, and its number.
    fn next_clean_line(&mut self) -> (r: Option<(usize, &'a str)>)
        requires
            old(self).well_formed(),
        ensures
            final(self).well_formed(),
            final(self).same_text(*old(self)),
            match r {
                Some((n, line)) => {
                    &&& old(self).pos() < old(self).lines@.len()
                    &&& final(self).pos() == old(self).pos() + 1
                    &&& n == grammar::number_at(old(self).source(), old(self).pos())
                    &&& n >= 1
                    &&& line@ == grammar::clean_lines(old(self).source())[old(
                        self,
                    ).current_line as int].text
                },
                None => old(self).pos() == old(self).lines@.len() && *final(self) == *old(self),
            },
    {
        if self.current_line < self.lines.len() {
            let line = self.lines[self.current_line];
            self.current_line = self.current_line + 1;
            Some(line)
        } else {
            None
        }
    }

    /// The next directive, without its semicolons.
    fn next_directive(&mut self) -> (r: Option<(usize, &'a str)>)
        requires
            old(self).well_formed(),
        ensures
            final(self).well_formed(),
            final(self).same_text(*old(self)),
            match r {
                Some((n, line)) => {
                    &&& old(self).pos() < old(self).lines@.len()
                    &&& final(self).pos() == old(self).pos() + 1
                    &&& final(self).at_line(n, line)
                },
                None => old(self).pos() == old(self).lines@.len() && *final(self) == *old(self),
            },
    {
        match self.next_clean_line() {
            Some((n, raw)) => Some((n, text::trim_end_char(raw, ';'))),
            None => None,
        }
    }

    /// Where a line starts, in bytes.
    fn line_offset(&self, line_num: usize) -> (r: usize)
        requires
            line_num >= 1,
        ensures
            r == grammar::capped(
                grammar::offset_before(text::lines_of(self.source()), line_num - 1),
            ),
    {
        let all = text::split_lines(self.content);
        let ghost raw = text::texts(all@);
        let mut sum: usize = 0;
        let mut i: usize = 0;
        while i < all.len() && i < line_num - 1
            invariant
                line_num >= 1,
                raw == text::texts(all@),
                i <= all@.len(),
                i <= line_num - 1,
                sum == grammar::capped(grammar::offset_before(raw, i as int)),
            decreases all@.len() - i,
        {
            proof {
                lemma_offset_step(raw, i as int);
                assert(raw[i as int] == all@[i as int]@);
            }
            sum = sum.saturating_add(text::str_byte_len(all[i])).saturating_add(1);
            i = i + 1;
        }
        proof {
            if i < line_num - 1 {
                lemma_offset_end(raw, line_num - 1);
            }
        }
        sum
    }

    /// An error at a place in a line.
    fn error(&self, message: &str, line_num: usize, offset: usize, len: usize) -> (r: NginxFault)
        requires
            line_num >= 1,
        ensures
            r@ == grammar::error(
                self.source(),
                message@,
                line_num as nat,
                offset as nat,
                len as nat,
            ),
    {
        NginxFault::Error(
            NginxParseError {
                message: message.to_owned(),
                line: line_num,
                source_code: self.content.to_owned(),
                span: SourceSpan {
                    offset: self.line_offset(line_num).saturating_add(offset),
                    len,
                },
            },
        )
    }

    /// An error that covers a whole directive.
    fn line_error(&self, message: &str, line_num: usize, line: &str) -> (r: NginxFault)
        requires
            self.at_line(line_num, line),
        ensures
            r@ == grammar::error_at(self.source(), (self.current_line - 1) as nat, message@),
    {
        self.error(message, line_num, 0, text::str_byte_len(line))
    }

    /// Demands that a directive opens a block.
    fn expect_open_brace(&self, line: &str, line_num: usize) -> (r: Result<(), NginxFault>)
        requires
            self.at_line(line_num, line),
        ensures
            match r {
                Ok(()) => text::has_suffix(line@, "{"@),
                Err(e) => !text::has_suffix(line@, "{"@) && e@ == grammar::brace_error(
                    self.source(),
                    (self.current_line - 1) as nat,
                ),
            },
    {
        if !text::ends_with(line, "{") {
            let n: usize = text::str_byte_len(line);
            let offset: usize = if n > 0 {
                n - 1
            } else {
                0
            };
            Err(self.error("Expected '{'", line_num, offset, 1))
        } else {
            Ok(())
        }
    }
}

/// One more line adds its length and its line end.
proof fn lemma_offset_step(lines: Seq<Seq<char>>, k: int)
    requires
        0 <= k < lines.len(),
    ensures
        grammar::offset_before(lines, k + 1) == grammar::offset_before(lines, k) + text::byte_len(
            lines[k],
        ) + 1,
    decreases lines.len(),
{
    if k > 0 {
        lemma_offset_step(lines.skip(1), k - 1);
        assert(lines.skip(1)[k - 1] == lines[k]);
    } else {
        assert(grammar::offset_before(lines.skip(1), 0) == 0);
    }
}

/// Lines that are not there add nothing.
proof fn lemma_offset_end(lines: Seq<Seq<char>>, k: int)
    requires
        lines.len() <= k,
    ensures
        grammar::offset_before(lines, k) == grammar::offset_before(lines, lines.len() as int),
    decreases lines.len(),
{
    if lines.len() > 0 {
        lemma_offset_end(lines.skip(1), k - 1);
    }
}

/// Words with one space between them.
fn join_spaced(parts: &Vec<&str>) -> (r: String)
    ensures
        r@ == grammar::spaced(text::texts(parts@)),
{
    let ghost all = text::texts(parts@);
    let mut out = String::new();
    let mut i: usize = 0;
    assert(all.take(0) =~= Seq::<Seq<char>>::empty());
    while i < parts.len()
        invariant
            i <= parts@.len(),
            all == text::texts(parts@),
            out@ == grammar::spaced(all.take(i as int)),
        decreases parts@.len() - i,
    {
        assert(all.take(i + 1).drop_last() =~= all.take(i as int));
        assert(all.take(i + 1).last() == parts@[i as int]@);
        if i > 0 {
            out.append(" ");
            out.append(parts[i]);
        } else {
            out.append(parts[i]);
            assert(out@ =~= parts@[0]@);
        }
        i = i + 1;
    }
    assert(all.take(i as int) =~= all);
    out
}

/// The value of the last word from `from` on that starts with `name`.
fn last_option_value<'b>(parts: &Vec<&'b str>, from: usize, name: &str) -> (r: Option<&'b str>)
    ensures
        match grammar::last_option(text::texts(parts@), from as int, name@) {
            Some(v) => r matches Some(s) && s@ == v,
            None => r is None,
        },
{
    let ghost all = text::texts(parts@);
    let mut i: usize = parts.len();
    assert(all.take(i as int) =~= all);
    while i > from
        invariant
            i <= parts@.len(),
            all == text::texts(parts@),
            grammar::last_option(all, from as int, name@) == grammar::last_option(
                all.take(i as int),
                from as int,
                name@,
            ),
        decreases i,
    {
        let word = parts[i - 1];
        assert(all.take(i as int).last() == word@);
        if text::starts_with(word, name) {
            return Some(text::trim_char(text::trim_prefixes(word, name), '"'));
        }
        assert(all.take(i as int).drop_last() =~= all.take(i - 1));
        i = i - 1;
    }
    None
}

impl<'a> NginxParser<'a> {
    /// A directive has too few words.
    fn missing_value(&self, parts: &Vec<&str>, line_num: usize, directive: &str) -> (r: NginxFault)
        requires
            line_num >= 1,
        ensures
            r@ == grammar::missing(
                self.source(),
                text::texts(parts@),
                line_num as nat,
                directive@,
            ),
    {
        let message = String::from_str("Missing value for ").concat(directive);
        let len = text::str_byte_len(join_spaced(parts).as_str());
        self.error(message.as_str(), line_num, 0, len)
    }

    /// A word is not a value of its directive.
    fn invalid_value(&self, word: &str, line_num: usize, directive: &str) -> (r: NginxFault)
        requires
            line_num >= 1,
        ensures
            r@ == grammar::invalid(self.source(), word@, line_num as nat, directive@),
    {
        let message = String::from_str("Invalid value for ").concat(directive);
        self.error(message.as_str(), line_num, 0, text::str_byte_len(word))
    }

    /// The word of a directive that is a whole number.
    fn parse_usize_value(
        &self,
        parts: &Vec<&str>,
        index: usize,
        line_num: usize,
        directive: &str,
    ) -> (r: Result<usize, NginxFault>)
        requires
            line_num >= 1,
        ensures
            match grammar::usize_value(
                self.source(),
                text::texts(parts@),
                index as int,
                line_num as nat,
                directive@,
            ) {
                Ok(v) => r matches Ok(x) && x == v,
                Err(f) => r matches Err(e) && e@ == f,
            },
    {
        if parts.len() <= index {
            return Err(self.missing_value(parts, line_num, directive));
        }
        match number::parse_usize(parts[index]) {
            Some(v) => Ok(v),
            None => Err(self.invalid_value(parts[index], line_num, directive)),
        }
    }

    /// The word of a directive that is a signed number.
    fn parse_i64_value(
        &self,
        parts: &Vec<&str>,
        index: usize,
        line_num: usize,
        directive: &str,
    ) -> (r: Result<i64, NginxFault>)
        requires
            line_num >= 1,
        ensures
            match grammar::i64_value(
                self.source(),
                text::texts(parts@),
                index as int,
                line_num as nat,
                directive@,
            ) {
                Ok(v) => r matches Ok(x) && x == v,
                Err(f) => r matches Err(e) && e@ == f,
            },
    {
        if parts.len() <= index {
            return Err(self.missing_value(parts, line_num, directive));
        }
        match number::parse_i64(parts[index]) {
            Some(v) => Ok(v),
            None => Err(self.invalid_value(parts[index], line_num, directive)),
        }
    }

    /// The word of a directive that is a truth value.
    fn parse_bool_value(
        &self,
        parts: &Vec<&str>,
        index: usize,
        line_num: usize,
        directive: &str,
    ) -> (r: Result<bool, NginxFault>)
        requires
            line_num >= 1,
        ensures
            match grammar::bool_value(
                self.source(),
                text::texts(parts@),
                index as int,
                line_num as nat,
                directive@,
            ) {
                Ok(v) => r matches Ok(x) && x == v,
                Err(f) => r matches Err(e) && e@ == f,
            },
    {
        if parts.len() <= index {
            return Err(self.missing_value(parts, line_num, directive));
        }
        match number::parse_bool(parts[index]) {
            Some(v) => Ok(v),
            None => Err(self.invalid_value(parts[index], line_num, directive)),
        }
    }

    /// The word of a directive that is any text.
    fn parse_text_value(
        &self,
        parts: &Vec<&str>,
        index: usize,
        line_num: usize,
        directive: &str,
    ) -> (r: Result<String, NginxFault>)
        requires
            line_num >= 1,
        ensures
            match grammar::text_value(
                self.source(),
                text::texts(parts@),
                index as int,
                line_num as nat,
                directive@,
            ) {
                Ok(v) => r matches Ok(x) && x@ == v,
                Err(f) => r matches Err(e) && e@ == f,
            },
    {
        if parts.len() <= index {
            return Err(self.missing_value(parts, line_num, directive));
        }
        Ok(parts[index].to_owned())
    }

    /// The word of a directive, without quotation marks around it.
    fn parse_quoted_value(
        &self,
        parts: &Vec<&str>,
        index: usize,
        line_num: usize,
        directive: &str,
    ) -> (r: Result<String, NginxFault>)
        requires
            line_num >= 1,
        ensures
            match grammar::quoted_value(
                self.source(),
                text::texts(parts@),
                index as int,
                line_num as nat,
                directive@,
            ) {
                Ok(v) => r matches Ok(x) && x@ == v,
                Err(f) => r matches Err(e) && e@ == f,
            },
    {
        if parts.len() <= index {
            return Err(self.missing_value(parts, line_num, directive));
        }
        Ok(text::trim_char(parts[index], '"').to_owned())
    }

    /// One directive of the `system` block.
    fn parse_system_directive(
        &self,
        line: &str,
        line_num: usize,
        config: &mut Config,
    ) -> (r: Result<(), NginxFault>)
        requires
            self.at_line(line_num, line),
        ensures
            match grammar::system_directive(
                self.source(),
                (self.current_line - 1) as nat,
                old(config)@,
            ) {
                Ok(c) => r is Ok && final(config)@ == c,
                Err(f) => r matches Err(e) && e@ == f && final(config)@ == old(config)@,
            },
            final(config).logging == old(config).logging,
    {
        let parts = text::split_words(line);
        if parts.len() == 0 {
            return Err(NginxFault::EmptyDirective);
        }
        if text::str_eq(parts[0], "threads_per_service") {
            config.threads_per_service =
            self.parse_usize_value(&parts, 1, line_num, "threads_per_service")?;
        } else if text::str_eq(parts[0], "daemonize") {
            config.daemonize = self.parse_bool_value(&parts, 1, line_num, "daemonize")?;
        } else if text::str_eq(parts[0], "pid_file") {
            let path = self.parse_quoted_value(&parts, 1, line_num, "pid_file")?;
            config.pid_file = Some(path);
        } else if text::str_eq(parts[0], "upgrade_socket") {
            let path = self.parse_quoted_value(&parts, 1, line_num, "upgrade_socket")?;
            config.upgrade_socket = Some(path);
        } else {
            return Err(self.line_error("Unknown system directive", line_num, line));
        }
        Ok(())
    }

    /// The `system` block.
    fn parse_system_block(&mut self, config: &mut Config) -> (r: Result<(), NginxFault>)
        requires
            old(self).well_formed(),
        ensures
            final(self).well_formed(),
            final(self).same_text(*old(self)),
            final(self).pos() >= old(self).pos(),
            match grammar::system_block(old(self).source(), old(self).pos(), old(config)@) {
                Ok((c, next)) => r is Ok && final(config)@ == c && final(self).pos() == next,
                Err(f) => {
                    &&& r matches Err(e)
                    &&& e@ == f
                    &&& final(config)@ == grammar::system_before_fault(
                        old(self).source(),
                        old(self).pos(),
                        old(config)@,
                    )
                },
            },
            final(config).logging == old(config).logging,
    {
        loop
            invariant
                self.well_formed(),
                self.same_text(*old(self)),
                self.pos() >= old(self).pos(),
                grammar::system_block(old(self).source(), old(self).pos(), old(config)@)
                    == grammar::system_block(self.source(), self.pos(), config@),
                grammar::system_before_fault(old(self).source(), old(self).pos(), old(config)@)
                    == grammar::system_before_fault(self.source(), self.pos(), config@),
                config.logging == old(config).logging,
            decreases self.lines@.len() - self.current_line,
        {
            match self.next_directive() {
                Some((line_num, line)) => {
                    if text::str_eq(line, "}") {
                        return Ok(());
                    }
                    self.parse_system_directive(line, line_num, config)?;
                },
                None => {
                    return Ok(());
                },
            }
        }
    }
}

/// The cache settings of a server.
#[derive(Debug)]
struct CacheSettings {
    enabled: bool,
    ttl: u64,
    browser_enabled: bool,
    browser_ttl: u64,
    dir: Option<String>,
    max_file_size: Option<usize>,
    shard_count: Option<usize>,
}

impl View for CacheSettings {
    type V = internal::CacheV;

    closed spec fn view(&self) -> internal::CacheV {
        internal::CacheV {
            enabled: self.enabled,
            ttl: self.ttl,
            browser_enabled: self.browser_enabled,
            browser_ttl: self.browser_ttl,
            dir: views::opt_view(self.dir),
            max_file_size: self.max_file_size,
            shard_count: self.shard_count,
        }
    }
}

impl<'a> NginxParser<'a> {
    /// One directive of a `cache` block.
    fn parse_cache_directive(
        &self,
        line: &str,
        line_num: usize,
        cache: &mut CacheSettings,
    ) -> (r: Result<(), NginxFault>)
        requires
            self.at_line(line_num, line),
        ensures
            match grammar::cache_directive(
                self.source(),
                (self.current_line - 1) as nat,
                old(cache)@,
            ) {
                Ok(k) => r is Ok && final(cache)@ == k,
                Err(f) => r matches Err(e) && e@ == f && final(cache)@ == old(cache)@,
            },
    {
        let parts = text::split_words(line);
        if parts.len() == 0 {
            return Err(self.line_error("Empty directive in cache block", line_num, line));
        }
        if text::str_eq(parts[0], "cache_enabled") {
            cache.enabled = self.parse_bool_value(&parts, 1, line_num, "cache_enabled")?;
        } else if text::str_eq(parts[0], "cache_ttl") {
            let val: i64 = self.parse_i64_value(&parts, 1, line_num, "cache_ttl")?;
            if val >= 0 {
                cache.ttl = val as u64;
            } else {
                return Err(self.line_error("cache_ttl must be non-negative", line_num, line));
            }
        } else if text::str_eq(parts[0], "browser_cache_enabled") {
            cache.browser_enabled =
            self.parse_bool_value(&parts, 1, line_num, "browser_cache_enabled")?;
        } else if text::str_eq(parts[0], "browser_cache_ttl") {
            let val: i64 = self.parse_i64_value(&parts, 1, line_num, "browser_cache_ttl")?;
            if val >= 0 {
                cache.browser_ttl = val as u64;
            } else {
                return Err(
                    self.line_error("browser_cache_ttl must be non-negative", line_num, line),
                );
            }
        } else if text::str_eq(parts[0], "cache_dir") {
            let path = self.parse_quoted_value(&parts, 1, line_num, "cache_dir")?;
            cache.dir = Some(path);
        } else if text::str_eq(parts[0], "max_file_size") {
            let val: i64 = self.parse_i64_value(&parts, 1, line_num, "max_file_size")?;
            if val >= 0 {
                cache.max_file_size = Some(val as usize);
            } else {
                return Err(self.line_error("max_file_size must be non-negative", line_num, line));
            }
        } else if text::str_eq(parts[0], "shard_count") {
            let val: i64 = self.parse_i64_value(&parts, 1, line_num, "shard_count")?;
            if val > 0 {
                cache.shard_count = Some(val as usize);
            } else {
                return Err(self.line_error("shard_count must be positive", line_num, line));
            }
        } else {
            return Err(self.line_error("Unknown cache directive", line_num, line));
        }
        Ok(())
    }

    /// A `cache` block.
    fn parse_cache_block(&mut self, cache: &mut CacheSettings) -> (r: Result<(), NginxFault>)
        requires
            old(self).well_formed(),
        ensures
            final(self).well_formed(),
            final(self).same_text(*old(self)),
            final(self).pos() >= old(self).pos(),
            match grammar::cache_block(old(self).source(), old(self).pos(), old(cache)@) {
                Ok((k, next)) => r is Ok && final(cache)@ == k && final(self).pos() == next,
                Err(f) => {
                    &&& r matches Err(e)
                    &&& e@ == f
                    &&& final(cache)@ == grammar::cache_before_fault(
                        old(self).source(),
                        old(self).pos(),
                        old(cache)@,
                    )
                },
            },
    {
        loop
            invariant
                self.well_formed(),
                self.same_text(*old(self)),
                self.pos() >= old(self).pos(),
                grammar::cache_block(old(self).source(), old(self).pos(), old(cache)@)
                    == grammar::cache_block(self.source(), self.pos(), cache@),
                grammar::cache_before_fault(old(self).source(), old(self).pos(), old(cache)@)
                    == grammar::cache_before_fault(self.source(), self.pos(), cache@),
            decreases self.lines@.len() - self.current_line,
        {
            match self.next_directive() {
                Some((line_num, line)) => {
                    if text::str_eq(line, "}") {
                        return Ok(());
                    }
                    self.parse_cache_directive(line, line_num, cache)?;
                },
                None => {
                    return Ok(());
                },
            }
        }
    }

    /// A `listen` directive.
    fn parse_listener(&self, line: &str, line_num: usize) -> (r: Result<ListenerConfig, NginxFault>)
        requires
            self.at_line(line_num, line),
        ensures
            match grammar::listener(self.source(), (self.current_line - 1) as nat) {
                Ok(l) => r matches Ok(x) && x@ == l,
                Err(f) => r matches Err(e) && e@ == f,
            },
    {
        let parts = text::split_words(line);
        let ghost all = text::texts(parts@);
        let ghost pos = (self.current_line - 1) as nat;
        if parts.len() < 2 {
            return Err(self.line_error("Invalid listen directive", line_num, line));
        }
        let mut tls: Option<TlsConfig> = None;
        let mut offer_h2: bool = false;
        let mut i: usize = 2;
        while i < parts.len()
            invariant
                self.at_line(line_num, line),
                pos == (self.current_line - 1) as nat,
                all == text::texts(parts@),
                all == text::words(line@),
                2 <= i <= parts@.len(),
                grammar::listen_options(self.source(), pos, all, 2, None, false)
                    == grammar::listen_options(
                    self.source(),
                    pos,
                    all,
                    i as int,
                    views::opt_view(tls),
                    offer_h2,
                ),
            decreases parts@.len() - i,
        {
            assert(all[i as int] == parts@[i as int]@);
            if text::str_eq(parts[i], "ssl") {
                let cert = last_option_value(&parts, i + 1, "cert=");
                let key = last_option_value(&parts, i + 1, "key=");
                match (cert, key) {
                    (Some(cert), Some(key)) => {
                        tls =
                        Some(
                            TlsConfig { cert_path: cert.to_owned(), key_path: key.to_owned() },
                        );
                    },
                    _ => {
                        return Err(
                            self.line_error("SSL requires both cert and key", line_num, line),
                        );
                    },
                }
            } else if text::str_eq(parts[i], "http2") {
                offer_h2 = true;
            }
            i = i + 1;
        }
        Ok(
            ListenerConfig {
                source: ListenerKind::Tcp { addr: parts[1].to_owned(), tls, offer_h2 },
            },
        )
    }

    /// A `server` directive of an `upstream` block.
    fn parse_peer(&self, line: &str, line_num: usize) -> (r: Result<HttpPeer, NginxFault>)
        requires
            self.at_line(line_num, line),
        ensures
            match grammar::peer(self.source(), (self.current_line - 1) as nat) {
                Ok(p) => r matches Ok(x) && x@ == p,
                Err(f) => r matches Err(e) && e@ == f,
            },
    {
        let parts = text::split_words(line);
        if parts.len() < 2 {
            return Err(self.line_error("Invalid server directive in upstream", line_num, line));
        }
        let address = parts[1].to_owned();
        match last_option_value(&parts, 2, "tls_sni=") {
            Some(sni) => {
                let proto = match last_option_value(&parts, 2, "proto=") {
                    Some(p) => p,
                    None => "h1-only",
                };
                let mut peer = HttpPeer::new(address, true, sni.to_owned());
                if text::str_eq(proto, "h1-only") {
                    peer.alpn = ALPN::H1;
                } else if text::str_eq(proto, "h2-only") {
                    peer.alpn = ALPN::H2;
                } else if text::str_eq(proto, "h2-or-h1") {
                    peer.alpn = ALPN::H2H1;
                } else {
                    return Err(self.line_error("Invalid proto value", line_num, line));
                }
                Ok(peer)
            },
            None => Ok(HttpPeer::new(address, false, String::new())),
        }
    }

    /// One directive of an `upstream` block.
    fn parse_upstream_directive(
        &self,
        line: &str,
        line_num: usize,
        upstream: &mut Upstream,
    ) -> (r: Result<(), NginxFault>)
        requires
            self.at_line(line_num, line),
        ensures
            match grammar::upstream_directive(
                self.source(),
                (self.current_line - 1) as nat,
                old(upstream)@,
            ) {
                Ok(u) => r is Ok && final(upstream)@ == u,
                Err(f) => r matches Err(e) && e@ == f && final(upstream)@ == old(upstream)@,
            },
    {
        broadcast use views::group_views;

        let parts = text::split_words(line);
        if parts.len() == 0 {
            return Err(self.line_error("Empty directive in upstream block", line_num, line));
        }
        if text::str_eq(parts[0], "server") {
            let peer = self.parse_peer(line, line_num)?;
            upstream.peers.push(peer);
        } else if text::str_eq(parts[0], "hash") {
            upstream.options.selection = SelectionKind::Ketama;
            upstream.options.selector = RequestSelector::UriPath;
            if parts.len() > 1 && text::str_eq(parts[1], "consistent") {
                upstream.options.discovery = DiscoveryKind::Static;
            }
        } else if text::str_eq(parts[0], "ip_hash") {
            upstream.options.selection = SelectionKind::Ketama;
            upstream.options.selector = RequestSelector::SourceAddrAndUriPath;
        } else if text::str_eq(parts[0], "least_conn") {
            upstream.options.selection = SelectionKind::RoundRobin;
        } else if text::str_eq(parts[0], "random") {
            upstream.options.selection = SelectionKind::Random;
        } else if text::str_eq(parts[0], "health_check") {
            upstream.options.health_checks = HealthCheckKind::Off;
        } else {
            let message = String::from_str("Unknown upstream directive: ").concat(parts[0]);
            return Err(self.line_error(message.as_str(), line_num, line));
        }
        Ok(())
    }

    /// An `upstream` block.
    fn parse_upstream_block(&mut self) -> (r: Result<Upstream, NginxFault>)
        requires
            old(self).well_formed(),
        ensures
            final(self).well_formed(),
            final(self).same_text(*old(self)),
            final(self).pos() >= old(self).pos(),
            match grammar::upstream_block(
                old(self).source(),
                old(self).pos(),
                grammar::UpstreamV::initial(),
            ) {
                Ok((u, next)) => r matches Ok(x) && x@ == u && final(self).pos() == next,
                Err(f) => r matches Err(e) && e@ == f,
            },
    {
        broadcast use views::group_views;

        let mut upstream = Upstream { peers: Vec::new(), options: UpstreamOptions::default() };
        assert(upstream@ == grammar::UpstreamV::initial());
        loop
            invariant
                self.well_formed(),
                self.same_text(*old(self)),
                self.pos() >= old(self).pos(),
                grammar::upstream_block(
                    old(self).source(),
                    old(self).pos(),
                    grammar::UpstreamV::initial(),
                ) == grammar::upstream_block(self.source(), self.pos(), upstream@),
            decreases self.lines@.len() - self.current_line,
        {
            match self.next_directive() {
                Some((line_num, line)) => {
                    if text::str_eq(line, "}") {
                        return Ok(upstream);
                    }
                    self.parse_upstream_directive(line, line_num, &mut upstream)?;
                },
                None => {
                    return Ok(upstream);
                },
            }
        }
    }

    /// The name of an `upstream` block.
    fn parse_upstream_name<'b>(
        &self,
        line: &'b str,
        line_num: usize,
    ) -> (r: Result<&'b str, NginxFault>)
        requires
            self.at_line(line_num, line),
        ensures
            match r {
                Ok(name) => text::words(line@).len() >= 2 && name@ == text::trimmed_end_char(
                    text::words(line@)[1],
                    '{',
                ),
                Err(e) => text::words(line@).len() < 2 && e@ == grammar::error_at(
                    self.source(),
                    (self.current_line - 1) as nat,
                    "Invalid upstream directive: missing name"@,
                ),
            },
    {
        let parts = text::split_words(line);
        if parts.len() < 2 {
            return Err(
                self.line_error("Invalid upstream directive: missing name", line_num, line),
            );
        }
        Ok(text::trim_end_char(parts[1], '{'))
    }
}

/// How many digits stand at `start`.
fn count_digits(cs: &Vec<char>, start: usize) -> (r: usize)
    requires
        start <= cs@.len(),
    ensures
        r == grammar::digit_run(cs@.skip(start as int)),
        start + r <= cs@.len(),
        forall|i: int| start <= i < start + r ==> number::digit(#[trigger] cs@[i]),
        start + r < cs@.len() ==> !number::digit(cs@[start + r]),
{
    let mut i: usize = start;
    while i < cs.len()
        invariant
            start <= i <= cs@.len(),
            grammar::digit_run(cs@.skip(start as int)) == (i - start) + grammar::digit_run(
                cs@.skip(i as int),
            ),
            forall|k: int| start <= k < i ==> number::digit(#[trigger] cs@[k]),
        decreases cs@.len() - i,
    {
        let u: u32 = cs[i] as u32;
        if u < 48 || u > 57 {
            return i - start;
        }
        assert(cs@.skip(i as int).skip(1) =~= cs@.skip(i + 1));
        i = i + 1;
    }
    i - start
}

/// Whether an exponent stands at `start`, up to the end.
fn is_exponent(cs: &Vec<char>, start: usize) -> (r: bool)
    requires
        start <= cs@.len(),
    ensures
        r == grammar::exponent(cs@.skip(start as int)),
{
    let ghost s = cs@.skip(start as int);
    if start >= cs.len() || !(cs[start] == 'e' || cs[start] == 'E') {
        return false;
    }
    let mut k: usize = start + 1;
    assert(s.skip(1) =~= cs@.skip(start + 1));
    if k < cs.len() && (cs[k] == '+' || cs[k] == '-') {
        assert(cs@.skip(k as int).skip(1) =~= cs@.skip(k + 1));
        k = k + 1;
    }
    let ghost digits = cs@.skip(k as int);
    assert(digits == grammar::unsigned_part(s.skip(1)));
    let n = count_digits(cs, k);
    if n > 0 && k + n == cs.len() {
        assert forall|i: int| 0 <= i < digits.len() implies number::digit(#[trigger] digits[i]) by {
            assert(number::digit(cs@[k + i]));
        }
        true
    } else {
        assert(k + n < cs@.len() ==> !number::digit(digits[n as int]));
        false
    }
}

/// Whether a decimal number stands at `start`, up to the end.
fn is_decimal_number(cs: &Vec<char>, start: usize) -> (r: bool)
    requires
        start <= cs@.len(),
    ensures
        r == grammar::decimal_number(cs@.skip(start as int)),
{
    let ghost s = cs@.skip(start as int);
    let n = cs.len();
    let a = count_digits(cs, start);
    let point: usize = start + a;
    assert(s.skip(a as int) =~= cs@.skip(point as int));
    if point < n && cs[point] == '.' {
        let b = count_digits(cs, point + 1);
        let tail: usize = point + 1 + b;
        assert(cs@.skip(point as int).skip(1) =~= cs@.skip(point + 1));
        assert(cs@.skip(point as int).skip(1 + b) =~= cs@.skip(tail as int));
        (a > 0 || b > 0) && (tail == n || is_exponent(cs, tail))
    } else {
        a > 0 && (point == n || is_exponent(cs, point))
    }
}

/// Whether a word is a literal of a floating point number.
fn is_float_literal(s: &str) -> (r: bool)
    ensures
        r == grammar::float_literal(s@),
{
    let cs = text::chars_of(s);
    let start: usize = if cs.len() > 0 && (cs[0] == '+' || cs[0] == '-') {
        1
    } else {
        0
    };
    let n = s.unicode_len();
    let rest = s.substring_char(start, n);
    assert(cs@.skip(start as int) =~= rest@);
    assert(grammar::unsigned_part(s@) =~= rest@);
    is_decimal_number(&cs, start) || text::lowered_eq(rest, "inf") || text::lowered_eq(
        rest,
        "infinity",
    ) || text::lowered_eq(rest, "nan")
}

/// A `limit_req` directive as far as it has been read.
#[derive(Debug)]
struct Limit {
    tokens: usize,
    refill: RefillInterval,
    multi: Option<MultiRequestKeyKind>,
    single: Option<SingleRequestKeyKind>,
}

impl View for Limit {
    type V = grammar::LimitV;

    closed spec fn view(&self) -> grammar::LimitV {
        grammar::LimitV {
            tokens: self.tokens,
            refill: self.refill@,
            multi: views::opt_view(self.multi),
            single: views::opt_view(self.single),
        }
    }
}

impl<'a> NginxParser<'a> {
    /// A pattern that does not compile.
    fn regex_error(&self, e: &String, line_num: usize, word: &str) -> (r: NginxFault)
        requires
            line_num >= 1,
        ensures
            r@ == grammar::regex_error(self.source(), line_num as nat, word@, e@),
    {
        let message = String::from_str("Invalid regex: ").concat(e.as_str());
        self.error(message.as_str(), line_num, 0, text::str_byte_len(word))
    }

    /// The `zone` option of a `limit_req` directive.
    fn parse_limit_zone(&self, word: &str, line_num: usize, limit: &mut Limit) -> (r: Result<
        (),
        NginxFault,
    >)
        requires
            line_num >= 1,
        ensures
            match grammar::limit_zone(self.source(), line_num as nat, word@, old(limit)@) {
                Ok(l) => r is Ok && final(limit)@ == l,
                Err(f) => r matches Err(e) && e@ == f && final(limit)@ == old(limit)@,
            },
    {
        let zone = text::trim_char(text::trim_prefixes(word, "zone="), '"');
        if text::str_eq(zone, "ip") {
            limit.multi = Some(MultiRequestKeyKind::SourceIp);
        } else if text::starts_with(zone, "any_") {
            match RegexShim::new(text::trim_prefixes(zone, "any_")) {
                Ok(pattern) => {
                    limit.single = Some(SingleRequestKeyKind::UriGroup { pattern });
                },
                Err(e) => {
                    return Err(self.regex_error(&e, line_num, word));
                },
            }
        } else {
            match RegexShim::new(zone) {
                Ok(pattern) => {
                    limit.multi = Some(MultiRequestKeyKind::Uri { pattern });
                },
                Err(e) => {
                    return Err(self.regex_error(&e, line_num, word));
                },
            }
        }
        Ok(())
    }

    /// The `rate` option of a `limit_req` directive.
    fn parse_limit_rate(&self, word: &str, line_num: usize, limit: &mut Limit) -> (r: Result<
        (),
        NginxFault,
    >)
        requires
            line_num >= 1,
        ensures
            match grammar::limit_rate(self.source(), line_num as nat, word@, old(limit)@) {
                Ok(l) => r is Ok && final(limit)@ == l,
                Err(f) => r matches Err(e) && e@ == f && final(limit)@ == old(limit)@,
            },
    {
        let rate = text::trim_prefixes(word, "rate=");
        if text::ends_with(rate, "r/s") {
            let literal = text::trim_suffixes(rate, "r/s");
            if !is_float_literal(literal) {
                return Err(
                    self.error("Invalid rate value", line_num, 0, text::str_byte_len(rate)),
                );
            }
            limit.refill = RefillInterval::PerSecond(literal.to_owned());
        } else if text::ends_with(rate, "r/m") {
            let literal = text::trim_suffixes(rate, "r/m");
            if !is_float_literal(literal) {
                return Err(
                    self.error("Invalid rate value", line_num, 0, text::str_byte_len(rate)),
                );
            }
            limit.refill = RefillInterval::PerMinute(literal.to_owned());
        }
        Ok(())
    }

    /// One option of a `limit_req` directive.
    fn parse_limit_option(&self, word: &str, line_num: usize, limit: &mut Limit) -> (r: Result<
        (),
        NginxFault,
    >)
        requires
            line_num >= 1,
        ensures
            match grammar::limit_option(self.source(), line_num as nat, word@, old(limit)@) {
                Ok(l) => r is Ok && final(limit)@ == l,
                Err(f) => r matches Err(e) && e@ == f && final(limit)@ == old(limit)@,
            },
    {
        if text::starts_with(word, "zone=") {
            self.parse_limit_zone(word, line_num, limit)
        } else if text::starts_with(word, "burst=") {
            match number::parse_usize(text::trim_prefixes(word, "burst=")) {
                Some(v) => {
                    limit.tokens = v;
                    Ok(())
                },
                None => Err(
                    self.error("Invalid burst value", line_num, 0, text::str_byte_len(word)),
                ),
            }
        } else if text::starts_with(word, "rate=") {
            self.parse_limit_rate(word, line_num, limit)
        } else {
            Ok(())
        }
    }

    /// A `limit_req` directive.
    fn parse_limit_req(
        &self,
        parts: &Vec<&str>,
        line_num: usize,
        rate_limiting: &mut RateLimitingConfig,
    ) -> (r: Result<(), NginxFault>)
        requires
            line_num >= 1,
        ensures
            match grammar::limit_rule(self.source(), line_num as nat, text::texts(parts@)) {
                Ok(rule) => r is Ok && final(rate_limiting)@ == old(rate_limiting)@.push(rule),
                Err(f) => r matches Err(e) && e@ == f && final(rate_limiting)@ == old(
                    rate_limiting,
                )@,
            },
    {
        broadcast use views::group_views;

        let ghost all = text::texts(parts@);
        let mut limit = Limit {
            tokens: 10,
            refill: RefillInterval::Millis(10),
            multi: None,
            single: None,
        };
        assert(limit@ == grammar::LimitV::initial());
        let mut i: usize = 1;
        while i < parts.len()
            invariant
                1 <= i,
                line_num >= 1,
                all == text::texts(parts@),
                grammar::limit_options(
                    self.source(),
                    line_num as nat,
                    all,
                    1,
                    grammar::LimitV::initial(),
                ) == grammar::limit_options(
                    self.source(),
                    line_num as nat,
                    all,
                    i as int,
                    limit@,
                ),
            decreases parts@.len() - i,
        {
            assert(all[i as int] == parts@[i as int]@);
            self.parse_limit_option(parts[i], line_num, &mut limit)?;
            i = i + 1;
        }
        let Limit { tokens, refill, multi, single } = limit;
        if let Some(kind) = multi {
            rate_limiting.rules.push(
                AllRateConfig::Multi {
                    kind,
                    config: MultiRaterConfig {
                        threads: 4,
                        max_buckets: 4000,
                        max_tokens_per_bucket: tokens,
                        refill_interval: refill,
                        refill_qty: 1,
                    },
                },
            );
        } else if let Some(kind) = single {
            rate_limiting.rules.push(
                AllRateConfig::Single {
                    kind,
                    config: SingleInstanceConfig {
                        max_tokens_per_bucket: tokens,
                        refill_interval: refill,
                        refill_qty: 1,
                    },
                },
            );
        } else {
            let len = text::str_byte_len(join_spaced(parts).as_str());
            return Err(self.error("Invalid or missing zone in limit_req", line_num, 0, len));
        }
        Ok(())
    }
}

/// Filter settings with a kind and one value.
fn one_filter(kind: &str, key: &str, value: String) -> (r: Settings)
    ensures
        internal::settings_view(r@) == grammar::filter_one(kind@, key@, value@),
{
    let kind_value = kind.to_owned();
    let mut filter: Settings = TextMap::new();
    filter.insert("kind".to_owned(), kind_value);
    filter.insert(key.to_owned(), value);
    assert(internal::settings_view(filter@) =~= grammar::filter_one(kind@, key@, value@));
    filter
}

/// The settings of a filter that sets a header.
fn upsert_filter(key: String, value: String) -> (r: Settings)
    ensures
        internal::settings_view(r@) == grammar::filter_upsert(key@, value@),
{
    let mut filter: Settings = TextMap::new();
    filter.insert("kind".to_owned(), "upsert-header".to_owned());
    filter.insert("key".to_owned(), key);
    filter.insert("value".to_owned(), value);
    assert(internal::settings_view(filter@) =~= grammar::filter_upsert(key@, value@));
    filter
}

/// Appends a filter.
fn push_filter(filters: &mut Vec<Settings>, filter: Settings)
    ensures
        internal::filters_view(final(filters)@) == internal::filters_view(old(filters)@).push(
            internal::settings_view(filter@),
        ),
{
    filters.push(filter);
    assert(internal::filters_view(filters@) =~= internal::filters_view(old(filters)@).push(
        internal::settings_view(filter@),
    ));
}

/// What the `location` blocks of a server add to.
struct Location {
    path: PathControl,
    rate_limiting: RateLimitingConfig,
}

impl View for Location {
    type V = grammar::LocationV;

    closed spec fn view(&self) -> grammar::LocationV {
        grammar::LocationV { path: self.path@, rules: self.rate_limiting@ }
    }
}

impl<'a> NginxParser<'a> {
    /// The header name and value that a directive sets.
    fn parse_header_values(
        &self,
        parts: &Vec<&str>,
        line_num: usize,
        key_directive: &str,
        value_directive: &str,
    ) -> (r: Result<Settings, NginxFault>)
        requires
            line_num >= 1,
        ensures
            match grammar::header_values(
                self.source(),
                text::texts(parts@),
                line_num as nat,
                key_directive@,
                value_directive@,
            ) {
                Ok(v) => r matches Ok(x) && internal::settings_view(x@) == v,
                Err(f) => r matches Err(e) && e@ == f,
            },
    {
        let key = self.parse_text_value(parts, 1, line_num, key_directive)?;
        let value = self.parse_quoted_value(parts, 2, line_num, value_directive)?;
        Ok(upsert_filter(key, value))
    }

    /// One directive of a `location` block.
    fn parse_location_directive(
        &self,
        line: &str,
        line_num: usize,
        location: &mut Location,
    ) -> (r: Result<(), NginxFault>)
        requires
            self.at_line(line_num, line),
        ensures
            match grammar::location_directive(
                self.source(),
                (self.current_line - 1) as nat,
                old(location)@,
            ) {
                Ok(l) => r is Ok && final(location)@ == l,
                Err(f) => r matches Err(e) && e@ == f && final(location)@ == old(location)@,
            },
    {
        let parts = text::split_words(line);
        if parts.len() == 0 {
            return Err(NginxFault::EmptyDirective);
        }
        if text::str_eq(parts[0], "deny") {
            let v = self.parse_text_value(&parts, 1, line_num, "deny")?;
            let filter = one_filter("block-cidr-range", "addrs", v);
            push_filter(&mut location.path.request_filters, filter);
        } else if text::str_eq(parts[0], "proxy_set_header") {
            let filter = self.parse_header_values(
                &parts,
                line_num,
                "proxy_set_header key",
                "proxy_set_header value",
            )?;
            push_filter(&mut location.path.upstream_request_filters, filter);
        } else if text::str_eq(parts[0], "add_header") {
            let filter = self.parse_header_values(
                &parts,
                line_num,
                "add_header key",
                "add_header value",
            )?;
            push_filter(&mut location.path.upstream_response_filters, filter);
        } else if text::str_eq(parts[0], "proxy_hide_header") {
            let v = self.parse_text_value(&parts, 1, line_num, "proxy_hide_header")?;
            let filter = one_filter("remove-header-key-regex", "pattern", v);
            push_filter(&mut location.path.upstream_request_filters, filter);
        } else if text::str_eq(parts[0], "hide_header") {
            let v = self.parse_text_value(&parts, 1, line_num, "hide_header")?;
            let filter = one_filter("remove-header-key-regex", "pattern", v);
            push_filter(&mut location.path.upstream_response_filters, filter);
        } else if text::str_eq(parts[0], "limit_req") {
            self.parse_limit_req(&parts, line_num, &mut location.rate_limiting)?;
        } else if text::str_eq(parts[0], "proxy_pass") {
            let v = self.parse_text_value(&parts, 1, line_num, "proxy_pass")?;
            let filter = one_filter("proxy_pass", "value", v);
            push_filter(&mut location.path.upstream_request_filters, filter);
        } else {
            return Err(self.line_error("Unknown location directive", line_num, line));
        }
        Ok(())
    }

    /// A `location` block, whose first line is `line`.
    fn parse_location_block(
        &mut self,
        line: &str,
        line_num: usize,
        location: &mut Location,
    ) -> (r: Result<(), NginxFault>)
        requires
            old(self).at_line(line_num, line),
        ensures
            final(self).well_formed(),
            final(self).same_text(*old(self)),
            final(self).pos() >= old(self).pos(),
            match grammar::location_block(
                old(self).source(),
                (old(self).current_line - 1) as nat,
                old(location)@,
            ) {
                Ok((l, next)) => r is Ok && final(location)@ == l && final(self).pos() == next,
                Err(f) => {
                    &&& r matches Err(e)
                    &&& e@ == f
                    &&& final(location)@ == grammar::location_before_fault(
                        old(self).source(),
                        (old(self).current_line - 1) as nat,
                        old(location)@,
                    )
                },
            },
    {
        let parts = text::split_words(line);
        if parts.len() < 2 || !text::ends_with(text::trim(line), "{") {
            return Err(self.line_error("Invalid location directive", line_num, line));
        }
        loop
            invariant
                self.well_formed(),
                self.same_text(*old(self)),
                self.pos() >= old(self).pos(),
                grammar::location_lines(old(self).source(), old(self).pos(), old(location)@)
                    == grammar::location_lines(self.source(), self.pos(), location@),
                grammar::location_block(
                    old(self).source(),
                    (old(self).current_line - 1) as nat,
                    old(location)@,
                ) == grammar::location_lines(old(self).source(), old(self).pos(), old(location)@),
                grammar::location_lines_before_fault(
                    old(self).source(),
                    old(self).pos(),
                    old(location)@,
                ) == grammar::location_lines_before_fault(self.source(), self.pos(), location@),
                grammar::location_before_fault(
                    old(self).source(),
                    (old(self).current_line - 1) as nat,
                    old(location)@,
                ) == grammar::location_lines_before_fault(
                    old(self).source(),
                    old(self).pos(),
                    old(location)@,
                ),
            decreases self.lines@.len() - self.current_line,
        {
            match self.next_directive() {
                Some((n, next_line)) => {
                    if text::str_eq(next_line, "}") {
                        return Ok(());
                    }
                    self.parse_location_directive(next_line, n, location)?;
                },
                None => {
                    return Ok(());
                },
            }
        }
    }
}

/// Whether a filter only names where requests go.
fn is_proxy_pass(filter: &Settings) -> (r: bool)
    ensures
        r == grammar::is_proxy_pass(internal::settings_view(filter@)),
{
    match filter.get("kind") {
        Some(kind) => text::str_eq(kind.as_str(), "proxy_pass"),
        None => false,
    }
}

/// The first group that a location names and the configuration knows.
fn find_promoted(filters: &Vec<Settings>, ups: &TextMap<Upstream>) -> (r: Option<String>)
    ensures
        views::opt_view(r) == grammar::promoted(
            internal::filters_view(filters@),
            ups_view(ups@),
        ),
        r matches Some(name) ==> ups@.dom().contains(name@),
{
    let ghost all = internal::filters_view(filters@);
    assert(all.skip(0) =~= all);
    let mut i: usize = 0;
    while i < filters.len()
        invariant
            i <= filters@.len(),
            all == internal::filters_view(filters@),
            grammar::promoted(all, ups_view(ups@)) == grammar::promoted(
                all.skip(i as int),
                ups_view(ups@),
            ),
        decreases filters@.len() - i,
    {
        let filter = &filters[i];
        assert(all.skip(i as int)[0] == internal::settings_view(filter@));
        assert(all.skip(i as int).skip(1) =~= all.skip(i + 1));
        if is_proxy_pass(filter) {
            if let Some(value) = filter.get("value") {
                if ups.contains_key(value.as_str()) {
                    return Some(value.clone());
                }
            }
        }
        i = i + 1;
    }
    None
}

/// Takes the filters away that only name where requests go.
fn drop_proxy_pass(filters: &mut Vec<Settings>)
    ensures
        internal::filters_view(final(filters)@) == grammar::without_proxy_pass(
            internal::filters_view(old(filters)@),
        ),
{
    let ghost all = internal::filters_view(filters@);
    let ghost mut k: int = 0;
    let mut i: usize = 0;
    assert(all.take(0) =~= Seq::<internal::SettingsV>::empty());
    assert(internal::filters_view(filters@) =~= all.skip(0));
    while i < filters.len()
        invariant
            i <= filters@.len(),
            0 <= k <= all.len(),
            i == grammar::without_proxy_pass(all.take(k)).len(),
            filters@.len() - i == all.len() - k,
            internal::filters_view(filters@) == grammar::without_proxy_pass(all.take(k))
                + all.skip(k),
        decreases filters@.len() - i,
    {
        let ghost view = internal::filters_view(filters@);
        let ghost kept = grammar::without_proxy_pass(all.take(k));
        proof {
            assert(view[i as int] == all[k]);
            assert(all.take(k + 1).drop_last() =~= all.take(k));
            assert(all.take(k + 1).last() == all[k]);
        }
        if is_proxy_pass(&filters[i]) {
            filters.remove(i);
            proof {
                assert(internal::filters_view(filters@) =~= view.remove(i as int));
                assert(view.remove(i as int) =~= kept + all.skip(k + 1));
            }
        } else {
            i = i + 1;
            assert(kept + all.skip(k) =~= kept.push(all[k]) + all.skip(k + 1));
        }
        proof {
            k = k + 1;
        }
    }
    proof {
        assert(all.take(k) =~= all);
        assert(all.skip(k) =~= Seq::<internal::SettingsV>::empty());
        assert(internal::filters_view(filters@) =~= grammar::without_proxy_pass(all));
    }
}

/// A `server` block as far as it has been read.
struct ServerDraft {
    name: String,
    listeners: Vec<ListenerConfig>,
    upstream: Upstream,
    location: Location,
    base_path: Option<String>,
    proxy_pass: Option<String>,
    cache: CacheSettings,
}

impl View for ServerDraft {
    type V = grammar::DraftV;

    closed spec fn view(&self) -> grammar::DraftV {
        grammar::DraftV {
            name: self.name@,
            listeners: views::views(self.listeners@),
            upstream: self.upstream@,
            location: self.location@,
            base_path: views::opt_view(self.base_path),
            proxy_pass: views::opt_view(self.proxy_pass),
            cache: self.cache@,
        }
    }
}

impl ServerDraft {
    /// The server number `count` before its first directive.
    fn new(count: usize) -> (r: Self)
        ensures
            r@ == grammar::initial_draft(count as nat),
    {
        broadcast use views::group_views;

        let number = number::decimal_text(count as u128);
        ServerDraft {
            name: String::from_str("Server").concat(number.as_str()),
            listeners: Vec::new(),
            upstream: Upstream { peers: Vec::new(), options: UpstreamOptions::default() },
            location: Location {
                path: PathControl::default(),
                rate_limiting: RateLimitingConfig::default(),
            },
            base_path: None,
            proxy_pass: None,
            cache: CacheSettings {
                enabled: false,
                ttl: 300,
                browser_enabled: false,
                browser_ttl: 3600,
                dir: None,
                max_file_size: None,
                shard_count: None,
            },
        }
    }

    /// Adds the backends of a named group.
    fn use_group(&mut self, name: String, group: &Upstream)
        ensures
            final(self)@ == grammar::with_group(old(self)@, name@, group@),
    {
        internal::extend_peers(&mut self.upstream.peers, &group.peers);
        self.upstream.options = group.options;
        self.proxy_pass = Some(name);
    }

    /// Takes the group of backends from a location, where the server has none of its own.
    fn settle(&mut self, ups: &TextMap<Upstream>)
        ensures
            final(self)@ == grammar::settled(old(self)@, ups_view(ups@)),
    {
        if self.upstream.peers.len() == 0 && self.proxy_pass.is_none() {
            if let Some(name) = find_promoted(&self.location.path.upstream_request_filters, ups) {
                if let Some(group) = ups.get(name.as_str()) {
                    self.use_group(name, group);
                }
            }
        }
        drop_proxy_pass(&mut self.location.path.upstream_request_filters);
    }
}

/// All servers that have been read.
struct Servers {
    proxies: Vec<ProxyConfig>,
    files: Vec<FileServerConfig>,
}

impl View for Servers {
    type V = grammar::ServersV;

    closed spec fn view(&self) -> grammar::ServersV {
        grammar::ServersV {
            proxies: views::views(self.proxies@),
            files: views::views(self.files@),
        }
    }
}

impl Servers {
    /// How many servers there are.
    spec fn count(self) -> nat {
        self.proxies@.len() + self.files@.len()
    }
}

/// Only the words `location` and `cache` open a block that adds to a server line by line.
proof fn lemma_server_words()
    ensures
        "server_name"@ != "location"@ && "server_name"@ != "cache"@,
        "listen"@ != "location"@ && "listen"@ != "cache"@,
        "upstream"@ != "location"@ && "upstream"@ != "cache"@,
        "proxy_pass"@ != "location"@ && "proxy_pass"@ != "cache"@,
        "root"@ != "location"@ && "root"@ != "cache"@,
        "cache"@ != "location"@,
{
    reveal_strlit("server_name");
    reveal_strlit("listen");
    reveal_strlit("upstream");
    reveal_strlit("proxy_pass");
    reveal_strlit("root");
    reveal_strlit("location");
    reveal_strlit("cache");
    assert("server_name"@.len() == 11 && "listen"@.len() == 6 && "proxy_pass"@.len() == 10);
    assert("root"@.len() == 4 && "location"@.len() == 8 && "cache"@.len() == 5);
    assert("upstream"@.len() == 8 && "upstream"@[0] != "location"@[0]);
}

impl<'a> NginxParser<'a> {
    /// An `upstream` directive of a `server` block.
    fn parse_server_upstream(
        &mut self,
        line: &str,
        line_num: usize,
        draft: &mut ServerDraft,
    ) -> (r: Result<(), NginxFault>)
        requires
            old(self).at_line(line_num, line),
        ensures
            final(self).well_formed(),
            final(self).same_text(*old(self)),
            final(self).pos() >= old(self).pos(),
            match grammar::server_upstream(
                old(self).source(),
                (old(self).current_line - 1) as nat,
                old(draft)@,
            ) {
                Ok((d, next)) => r is Ok && final(draft)@ == d && final(self).pos() == next,
                Err(f) => r matches Err(e) && e@ == f && final(draft)@ == old(draft)@,
            },
    {
        broadcast use views::group_views;

        let n = line.unicode_len();
        let open = text::find_char(line, '{');
        if open < n && text::ends_with(line, "}") {
            proof {
                reveal_strlit("}");
                assert(line@.last() == "}"@[0]) by {
                    assert(line@.subrange(line@.len() - 1, line@.len() as int)[0] == "}"@[0]);
                }
                assert(open < n - 1);
                assert(text::before_char(line@, '{').len() == open);
            }
            let inner = text::trim(line.substring_char(open + 1, n - 1));
            let inner_parts = text::split_words(inner);
            if inner_parts.len() < 2 || !text::str_eq(inner_parts[0], "server") {
                return Err(
                    self.line_error("Invalid single-line upstream directive", line_num, line),
                );
            }
            let address = text::trim_end_char(inner_parts[1], ';').to_owned();
            draft.upstream.peers.push(HttpPeer::new(address, false, String::new()));
        } else {
            self.expect_open_brace(line, line_num)?;
            let group = self.parse_upstream_block()?;
            internal::extend_peers(&mut draft.upstream.peers, &group.peers);
            draft.upstream.options = group.options;
        }
        Ok(())
    }

    /// A `proxy_pass` directive of a `server` block.
    fn parse_server_proxy_pass(
        &self,
        line: &str,
        line_num: usize,
        draft: &mut ServerDraft,
        ups: &TextMap<Upstream>,
    ) -> (r: Result<(), NginxFault>)
        requires
            self.at_line(line_num, line),
            text::words(line@).len() > 0,
            text::words(line@)[0] == "proxy_pass"@,
        ensures
            match grammar::server_directive(
                self.source(),
                (self.current_line - 1) as nat,
                old(draft)@,
                ups_view(ups@),
            ) {
                Ok((d, next)) => r is Ok && final(draft)@ == d && self.pos() == next,
                Err(f) => r matches Err(e) && e@ == f && final(draft)@ == old(draft)@,
            },
    {
        proof {
            reveal_strlit("proxy_pass");
            reveal_strlit("server_name");
            reveal_strlit("listen");
            reveal_strlit("upstream");
            assert("proxy_pass"@.len() != "server_name"@.len());
            assert("proxy_pass"@.len() != "listen"@.len());
            assert("proxy_pass"@.len() != "upstream"@.len());
        }
        let parts = text::split_words(line);
        let url = self.parse_text_value(&parts, 1, line_num, "proxy_pass")?;
        if text::starts_with(url.as_str(), "http://") || text::starts_with(
            url.as_str(),
            "https://",
        ) {
            draft.proxy_pass = Some(url);
        } else {
            match ups.get(url.as_str()) {
                Some(group) => {
                    draft.use_group(url, group);
                },
                None => {
                    return Err(self.line_error("Unknown upstream reference", line_num, line));
                },
            }
        }
        Ok(())
    }

    /// One directive of a `server` block.
    fn parse_server_directive(
        &mut self,
        line: &str,
        line_num: usize,
        draft: &mut ServerDraft,
        ups: &TextMap<Upstream>,
    ) -> (r: Result<(), NginxFault>)
        requires
            old(self).at_line(line_num, line),
        ensures
            final(self).well_formed(),
            final(self).same_text(*old(self)),
            final(self).pos() >= old(self).pos(),
            match grammar::server_directive(
                old(self).source(),
                (old(self).current_line - 1) as nat,
                old(draft)@,
                ups_view(ups@),
            ) {
                Ok((d, next)) => r is Ok && final(draft)@ == d && final(self).pos() == next,
                Err(f) => {
                    &&& r matches Err(e)
                    &&& e@ == f
                    &&& final(draft)@ == grammar::directive_before_fault(
                        old(self).source(),
                        (old(self).current_line - 1) as nat,
                        old(draft)@,
                    )
                },
            },
    {
        broadcast use views::group_views;

        proof {
            lemma_server_words();
        }
        let parts = text::split_words(line);
        if parts.len() == 0 {
            return Err(NginxFault::EmptyDirective);
        }
        if text::str_eq(parts[0], "server_name") {
            draft.name = self.parse_text_value(&parts, 1, line_num, "server_name")?;
        } else if text::str_eq(parts[0], "listen") {
            let listener = self.parse_listener(line, line_num)?;
            draft.listeners.push(listener);
        } else if text::str_eq(parts[0], "upstream") {
            self.parse_server_upstream(line, line_num, draft)?;
        } else if text::str_eq(parts[0], "proxy_pass") {
            self.parse_server_proxy_pass(line, line_num, draft, ups)?;
        } else if text::str_eq(parts[0], "location") {
            self.parse_location_block(line, line_num, &mut draft.location)?;
        } else if text::str_eq(parts[0], "root") {
            let path = self.parse_quoted_value(&parts, 1, line_num, "root")?;
            draft.base_path = Some(path);
        } else if text::str_eq(parts[0], "cache") {
            self.expect_open_brace(line, line_num)?;
            self.parse_cache_block(&mut draft.cache)?;
        } else {
            return Err(self.line_error("Unknown server directive", line_num, line));
        }
        Ok(())
    }

    /// The lines of a `server` block.
    fn parse_server_lines(
        &mut self,
        draft: &mut ServerDraft,
        ups: &TextMap<Upstream>,
    ) -> (r: Result<(), NginxFault>)
        requires
            old(self).well_formed(),
        ensures
            final(self).well_formed(),
            final(self).same_text(*old(self)),
            final(self).pos() >= old(self).pos(),
            r is Ok && old(self).pos() < old(self).lines@.len() ==> final(self).pos() > old(
                self,
            ).pos(),
            match grammar::server_lines(
                old(self).source(),
                old(self).pos(),
                old(draft)@,
                ups_view(ups@),
            ) {
                Ok((d, next)) => r is Ok && final(draft)@ == d && final(self).pos() == next,
                Err(f) => {
                    &&& r matches Err(e)
                    &&& e@ == f
                    &&& final(draft)@ == grammar::server_before_fault(
                        old(self).source(),
                        old(self).pos(),
                        old(draft)@,
                        ups_view(ups@),
                    )
                },
            },
    {
        loop
            invariant
                self.well_formed(),
                self.same_text(*old(self)),
                self.pos() >= old(self).pos(),
                grammar::server_lines(
                    old(self).source(),
                    old(self).pos(),
                    old(draft)@,
                    ups_view(ups@),
                ) == grammar::server_lines(self.source(), self.pos(), draft@, ups_view(ups@)),
                grammar::server_before_fault(
                    old(self).source(),
                    old(self).pos(),
                    old(draft)@,
                    ups_view(ups@),
                ) == grammar::server_before_fault(
                    self.source(),
                    self.pos(),
                    draft@,
                    ups_view(ups@),
                ),
            decreases self.lines@.len() - self.current_line,
        {
            match self.next_directive() {
                Some((line_num, line)) => {
                    if text::str_eq(line, "}") {
                        return Ok(());
                    }
                    self.parse_server_directive(line, line_num, draft, ups)?;
                },
                None => {
                    return Ok(());
                },
            }
        }
    }

    /// Adds a server whose block has been read.
    fn add_server(
        &self,
        draft: ServerDraft,
        ups: &TextMap<Upstream>,
        servers: &mut Servers,
    ) -> (r: Result<(), NginxFault>)
        requires
            self.well_formed(),
            self.current_line >= 1,
        ensures
            final(servers).count() <= old(servers).count() + 1,
            match grammar::server_added(
                self.source(),
                self.pos(),
                draft@,
                ups_view(ups@),
                old(servers)@,
            ) {
                Ok(s) => r is Ok && final(servers)@ == s,
                Err(f) => r matches Err(e) && e@ == f && final(servers)@ == old(servers)@,
            },
    {
        broadcast use views::group_views;

        let mut draft = draft;
        draft.settle(ups);
        if draft.listeners.len() == 0 {
            return Err(
                self.error("Server must have at least one listener", self.current_line, 0, 0),
            );
        }
        if draft.base_path.is_some() {
            servers.files.push(
                FileServerConfig {
                    name: draft.name,
                    listeners: draft.listeners,
                    base_path: draft.base_path,
                },
            );
        } else {
            if draft.upstream.peers.len() == 0 && draft.proxy_pass.is_none() {
                return Err(
                    self.error(
                        "Proxy server must have at least one upstream",
                        self.current_line,
                        0,
                        0,
                    ),
                );
            }
            servers.proxies.push(
                ProxyConfig {
                    name: draft.name,
                    listeners: draft.listeners,
                    upstream_options: draft.upstream.options,
                    upstreams: draft.upstream.peers,
                    path_control: draft.location.path,
                    rate_limiting: draft.location.rate_limiting,
                    cache_enabled: draft.cache.enabled,
                    cache_ttl: draft.cache.ttl,
                    browser_cache_enabled: draft.cache.browser_enabled,
                    browser_cache_ttl: draft.cache.browser_ttl,
                    cache_dir: draft.cache.dir,
                    max_file_size: draft.cache.max_file_size,
                    shard_count: draft.cache.shard_count,
                },
            );
        }
        Ok(())
    }

    /// A `server` block.
    fn parse_server_block(
        &mut self,
        servers: &mut Servers,
        ups: &TextMap<Upstream>,
    ) -> (r: Result<(), NginxFault>)
        requires
            old(self).well_formed(),
            old(self).lines@.len() >= 1,
            old(servers).count() <= usize::MAX,
        ensures
            final(self).well_formed(),
            final(self).same_text(*old(self)),
            final(self).pos() >= old(self).pos(),
            final(servers).count() <= old(servers).count() + 1,
            match grammar::server_block(
                old(self).source(),
                old(self).pos(),
                ups_view(ups@),
                old(servers)@,
            ) {
                Ok((s, next)) => r is Ok && final(servers)@ == s && final(self).pos() == next,
                Err(f) => r matches Err(e) && e@ == f && final(servers)@ == old(servers)@,
            },
    {
        let mut draft = ServerDraft::new(servers.proxies.len() + servers.files.len());
        self.parse_server_lines(&mut draft, ups)?;
        self.add_server(draft, ups, servers)
    }

    /// The `http` block.
    fn parse_http_block(
        &mut self,
        servers: &mut Servers,
        ups: &TextMap<Upstream>,
    ) -> (r: Result<(), NginxFault>)
        requires
            old(self).well_formed(),
            old(servers).count() + old(self).lines@.len() - old(self).pos() <= usize::MAX,
        ensures
            final(self).well_formed(),
            final(self).same_text(*old(self)),
            final(self).pos() >= old(self).pos(),
            final(servers).count() <= old(servers).count() + final(self).pos() - old(self).pos(),
            match grammar::http_block(
                old(self).source(),
                old(self).pos(),
                ups_view(ups@),
                old(servers)@,
            ) {
                Ok((s, next)) => r is Ok && final(servers)@ == s && final(self).pos() == next,
                Err(f) => {
                    &&& r matches Err(e)
                    &&& e@ == f
                    &&& final(servers)@ == grammar::servers_before_fault(
                        old(self).source(),
                        old(self).pos(),
                        ups_view(ups@),
                        old(servers)@,
                    )
                },
            },
    {
        loop
            invariant
                self.well_formed(),
                self.same_text(*old(self)),
                self.pos() >= old(self).pos(),
                old(servers).count() + old(self).lines@.len() - old(self).pos() <= usize::MAX,
                servers.count() <= old(servers).count() + self.pos() - old(self).pos(),
                grammar::http_block(
                    old(self).source(),
                    old(self).pos(),
                    ups_view(ups@),
                    old(servers)@,
                ) == grammar::http_block(self.source(), self.pos(), ups_view(ups@), servers@),
                grammar::servers_before_fault(
                    old(self).source(),
                    old(self).pos(),
                    ups_view(ups@),
                    old(servers)@,
                ) == grammar::servers_before_fault(
                    self.source(),
                    self.pos(),
                    ups_view(ups@),
                    servers@,
                ),
            decreases self.lines@.len() - self.current_line,
        {
            match self.next_directive() {
                Some((line_num, line)) => {
                    if text::str_eq(line, "}") {
                        return Ok(());
                    }
                    if text::starts_with(line, "server") {
                        self.expect_open_brace(line, line_num)?;
                        self.parse_server_block(servers, ups)?;
                    }
                },
                None => {
                    return Ok(());
                },
            }
        }
    }

    /// The whole text.
    #[verifier::rlimit(40)]
    fn parse(&mut self) -> (r: Result<Config, NginxFault>)
        requires
            old(self).well_formed(),
            old(self).current_line == 0,
        ensures
            match grammar::meaning(old(self).source()) {
                Ok(c) => r matches Ok(x) && x@ == c && x.logging.is_initial(),
                Err(f) => r matches Err(e) && e@ == f,
            },
    {
        broadcast use views::group_views;

        assert(self.lines.len() <= usize::MAX);
        let mut config = Config::default();
        let mut servers = Servers { proxies: Vec::new(), files: Vec::new() };
        let mut ups: TextMap<Upstream> = TextMap::new();
        assert(ups_view(ups@) =~= Map::<Seq<char>, grammar::UpstreamV>::empty());
        loop
            invariant_except_break
                self.well_formed(),
                self.same_text(*old(self)),
                servers.count() <= self.pos(),
                self.lines@.len() <= usize::MAX,
                config.logging.is_initial(),
                grammar::top_lines(old(self).source(), 0, grammar::initial_top())
                    == grammar::top_lines(
                    self.source(),
                    self.pos(),
                    grammar::TopV { config: config@, servers: servers@, ups: ups_view(ups@) },
                ),
            ensures
                config.logging.is_initial(),
                grammar::top_lines(old(self).source(), 0, grammar::initial_top()) == Ok::<
                    grammar::TopV,
                    grammar::FaultV,
                >(grammar::TopV { config: config@, servers: servers@, ups: ups_view(ups@) }),
            decreases self.lines@.len() - self.current_line,
        {
            match self.next_directive() {
                Some((line_num, line)) => {
                    if text::starts_with(line, "system") {
                        self.expect_open_brace(line, line_num)?;
                        self.parse_system_block(&mut config)?;
                    } else if text::starts_with(line, "http") {
                        self.expect_open_brace(line, line_num)?;
                        self.parse_http_block(&mut servers, &ups)?;
                    } else if text::starts_with(line, "upstream") {
                        let name = self.parse_upstream_name(line, line_num)?.to_owned();
                        self.expect_open_brace(line, line_num)?;
                        let group = self.parse_upstream_block()?;
                        let ghost before = ups@;
                        ups.insert(name, group);
                        assert(ups_view(ups@) =~= ups_view(before).insert(name@, group@));
                    }
                },
                None => {
                    break;
                },
            }
        }
        config.basic_proxies = servers.proxies;
        config.file_servers = servers.files;
        Ok(config)
    }
}

} // verus!
