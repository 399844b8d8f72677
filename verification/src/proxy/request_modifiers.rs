//! Filters that change the header of a request on its way to the backend.
use crate::config::internal;
use crate::config::internal::{Settings, SettingsV};
use crate::proxy::headers;
use crate::proxy::headers::Fields;
use crate::proxy::rate_limiting;
use crate::proxy::rate_limiting::RegexShim;
use crate::proxy::{ensure_empty, extract_val};
use crate::text;
use pingora_http::RequestHeader;
use vstd::prelude::*;
use vstd::string::*;
use vstd::utf8::*;

verus! {

/// The contents of a filter that changes headers.
pub enum ModifierV {
    RemoveHeaderKeyRegex { pattern: Seq<char> },
    UpsertHeader { key: Seq<char>, value: Seq<char> },
}

impl ModifierV {
    /// The fields that the filter leaves of `f`, and the text of an error where a field is refused.
    pub open spec fn outcome(self, f: Fields) -> (Fields, Option<Seq<char>>) {
        match self {
            ModifierV::RemoveHeaderKeyRegex { pattern } => (without_matches(f, pattern), None),
            ModifierV::UpsertHeader { key, value } => upserted(f, key, value),
        }
    }

    /// Whether the filter can add a name.
    pub open spec fn appends(self) -> bool {
        self is UpsertHeader
    }

    /// Whether there is room for what the filter adds to `f`: a field that is set takes the place of
    /// those under its name.
    pub open spec fn has_room(self, f: Fields) -> bool {
        match self {
            ModifierV::RemoveHeaderKeyRegex { .. } => true,
            ModifierV::UpsertHeader { key, .. } => headers::room(headers::without(f, key), 1),
        }
    }
}

/// The fields whose names a pattern does not match.
pub open spec fn without_matches(f: Fields, pattern: Seq<char>) -> Fields {
    Map::new(
        |k: Seq<char>| f.dom().contains(k) && !rate_limiting::regex_finds(pattern, k),
        |k: Seq<char>| f[k],
    )
}

/// The fields with `value` alone under `key`, or without any that are found under `key` where the
/// field is refused.
pub open spec fn upserted(f: Fields, key: Seq<char>, value: Seq<char>) -> (
    Fields,
    Option<Seq<char>>,
) {
    let g = headers::without(f, key);
    match headers::append_result(g, key, value) {
        Ok(h) => (h, None),
        Err(e) => (g, Some(e)),
    }
}

/// A field that is set has one value, the one that was asked for; all other fields stay as they
/// are. Where fields are removed, none is left whose name matches, and all others stay as they are.
pub proof fn law_filters_change_nothing_else(m: ModifierV, f: Fields, name: Seq<char>)
    ensures
        match m {
            ModifierV::UpsertHeader { key, value } => if name == text::lowered(key) {
                m.outcome(f).1 is None ==> m.outcome(f).0.dom().contains(name) && m.outcome(f).0[name]
                    == seq![encode_utf8(value)]
            } else {
                headers::values_at(m.outcome(f).0, name) == headers::values_at(f, name)
            },
            ModifierV::RemoveHeaderKeyRegex { pattern } => if rate_limiting::regex_finds(
                pattern,
                name,
            ) {
                !m.outcome(f).0.dom().contains(name)
            } else {
                headers::values_at(m.outcome(f).0, name) == headers::values_at(f, name)
            },
        },
{
    if let ModifierV::UpsertHeader { key, value } = m {
        let g = headers::without(f, key);
        let values = headers::values_at(g, text::lowered(key));
        assert(headers::valid_name(key) ==> values.push(encode_utf8(value)) =~= seq![
            encode_utf8(value),
        ]);
    }
}

/// Applying a filter twice is applying it once.
pub proof fn law_filters_are_idempotent(m: ModifierV, f: Fields)
    ensures
        m.outcome(m.outcome(f).0) == m.outcome(f),
{
    let g = m.outcome(f).0;
    match m {
        ModifierV::UpsertHeader { key, value } => {
            assert(headers::without(g, key) =~= headers::without(f, key));
        },
        ModifierV::RemoveHeaderKeyRegex { pattern } => {
            assert(without_matches(g, pattern) =~= g);
        },
    }
}

/// A field whose name and value are valid is set: no error comes, its value stands alone under the
/// name in lower case, all other fields stay as they are, and setting it again changes nothing.
pub proof fn law_valid_fields_are_set(key: Seq<char>, value: Seq<char>, f: Fields)
    requires
        headers::valid_name(key),
        headers::valid_value(encode_utf8(value)),
    ensures
        ({
            let set = f.insert(text::lowered(key), seq![encode_utf8(value)]);
            let m = ModifierV::UpsertHeader { key, value };
            m.outcome(f) == (set, None::<Seq<char>>) && m.outcome(set) == (set, None::<Seq<char>>)
        }),
{
    let k = text::lowered(key);
    let set = f.insert(k, seq![encode_utf8(value)]);
    assert(Seq::<Seq<u8>>::empty().push(encode_utf8(value)) =~= seq![encode_utf8(value)]);
    assert(f.remove(k).insert(k, seq![encode_utf8(value)]) =~= set);
    assert(set.remove(k).insert(k, seq![encode_utf8(value)]) =~= set);
}

/// A field whose name or value is not valid is refused: an error comes, and no fields are lost but
/// those under the name.
pub proof fn law_other_fields_are_refused(key: Seq<char>, value: Seq<char>, f: Fields)
    requires
        !headers::valid_name(key) || !headers::valid_value(encode_utf8(value)),
    ensures
        ({
            let m = ModifierV::UpsertHeader { key, value };
            m.outcome(f).1 is Some && m.outcome(f).0 == headers::without(f, key)
        }),
{
}

/// A filter for the header of a request.
pub trait RequestModifyMod {
    /// The contents of the filter.
    spec fn contents(&self) -> ModifierV;

    /// Changes the header of a request on its way to the backend.
    fn upstream_request_filter(&self, header: &mut RequestHeader) -> (r: Result<(), String>)
        requires
            self.contents().has_room(headers::request_fields(*old(header))),
        ensures
            headers::request_method(*final(header)) == headers::request_method(*old(header)),
            headers::request_uri(*final(header)) == headers::request_uri(*old(header)),
            headers::request_version(*final(header)) == headers::request_version(*old(header)),
            ({
                let (f, e) = self.contents().outcome(headers::request_fields(*old(header)));
                headers::request_fields(*final(header)) == f && match e {
                    Some(text) => r matches Err(x) && x@ == text,
                    None => r is Ok,
                }
            }),
    ;
}

/// Removes the fields whose names match a regular expression.
#[derive(Debug)]
pub struct RemoveHeaderKeyRegex {
    pub regex: RegexShim,
}

/// Puts a value in place of those under a name.
#[derive(Debug)]
pub struct UpsertHeader {
    pub key: String,
    pub value: String,
}

impl View for RemoveHeaderKeyRegex {
    type V = ModifierV;

    open spec fn view(&self) -> ModifierV {
        ModifierV::RemoveHeaderKeyRegex { pattern: self.regex@ }
    }
}

impl View for UpsertHeader {
    type V = ModifierV;

    open spec fn view(&self) -> ModifierV {
        ModifierV::UpsertHeader { key: self.key@, value: self.value@ }
    }
}

/// The filter that settings without their kind make, where that is to remove fields.
pub open spec fn remove_header_of(s: SettingsV) -> Result<ModifierV, Seq<char>> {
    if !s.dom().contains("pattern"@) {
        Err("Missing configuration field!"@)
    } else if rate_limiting::regex_refusal(s["pattern"@]) is Some {
        Err("Error building regex"@)
    } else if s.remove("pattern"@) != Map::<Seq<char>, Seq<char>>::empty() {
        Err("Extra settings found!"@)
    } else {
        Ok(ModifierV::RemoveHeaderKeyRegex { pattern: s["pattern"@] })
    }
}

/// The filter that settings without their kind make, where that is to set a field.
pub open spec fn upsert_header_of(s: SettingsV) -> Result<ModifierV, Seq<char>> {
    if !s.dom().contains("key"@) || !s.remove("key"@).dom().contains("value"@) {
        Err("Missing configuration field!"@)
    } else {
        Ok(ModifierV::UpsertHeader { key: s["key"@], value: s["value"@] })
    }
}

/// The contents of a filter or of a message.
pub open spec fn built_view<T: View<V = ModifierV>>(r: Result<T, &'static str>) -> Result<
    ModifierV,
    Seq<char>,
> {
    match r {
        Ok(m) => Ok(m@),
        Err(e) => Err(e@),
    }
}

impl RemoveHeaderKeyRegex {
    /// The filter with a pattern that has been compiled, where nothing else was set.
    pub fn with_pattern(compiled: Result<RegexShim, String>, rest: &Settings) -> (r: Result<
        Self,
        &'static str,
    >)
        ensures
            match compiled {
                Ok(shim) => if internal::settings_view(rest@)
                    == Map::<Seq<char>, Seq<char>>::empty() {
                    r matches Ok(m) && m@ == (ModifierV::RemoveHeaderKeyRegex { pattern: shim@ })
                } else {
                    r matches Err(e) && e@ == "Extra settings found!"@
                },
                Err(_) => r matches Err(e) && e@ == "Error building regex"@,
            },
    {
        match compiled {
            Ok(regex) => match ensure_empty(rest) {
                Ok(()) => Ok(RemoveHeaderKeyRegex { regex }),
                Err(e) => Err(e),
            },
            Err(_) => Err("Error building regex"),
        }
    }

    /// Makes the filter out of its settings.
    pub fn from_settings(settings: Settings) -> (r: Result<Self, &'static str>)
        ensures
            built_view(r) == remove_header_of(internal::settings_view(settings@)),
    {
        let mut settings = settings;
        match extract_val("pattern", &mut settings) {
            Ok(pattern) => RemoveHeaderKeyRegex::with_pattern(
                RegexShim::new(pattern.as_str()),
                &settings,
            ),
            Err(e) => Err(e),
        }
    }
}

impl UpsertHeader {
    /// Makes the filter out of its settings.
    pub fn from_settings(settings: Settings) -> (r: Result<Self, &'static str>)
        ensures
            built_view(r) == upsert_header_of(internal::settings_view(settings@)),
    {
        let mut settings = settings;
        proof {
            reveal_strlit("key");
            reveal_strlit("value");
            assert("key"@.len() != "value"@.len());
        }
        match extract_val("key", &mut settings) {
            Ok(key) => match extract_val("value", &mut settings) {
                Ok(value) => Ok(UpsertHeader { key, value }),
                Err(e) => Err(e),
            },
            Err(e) => Err(e),
        }
    }
}

impl RequestModifyMod for RemoveHeaderKeyRegex {
    open spec fn contents(&self) -> ModifierV {
        self@
    }

    fn upstream_request_filter(&self, header: &mut RequestHeader) -> (r: Result<(), String>) {
        let ghost f = headers::request_fields(*header);
        let ghost pattern = self.regex@;
        let names = headers::request_keys(header);
        let mut i: usize = 0;
        while i < names.len()
            invariant
                i <= names@.len(),
                pattern == self.regex@,
                headers::request_method(*header) == headers::request_method(*old(header)),
                headers::request_uri(*header) == headers::request_uri(*old(header)),
                headers::request_version(*header) == headers::request_version(*old(header)),
                forall|k: Seq<char>| #[trigger]
                    headers::request_fields(*header).dom().contains(k) ==> f.dom().contains(k)
                        && headers::request_fields(*header)[k] == f[k],
                forall|k: Seq<char>| #[trigger]
                    f.dom().contains(k) && !rate_limiting::regex_finds(pattern, k)
                        ==> headers::request_fields(*header).dom().contains(k),
                forall|j: int|
                    0 <= j < i && rate_limiting::regex_finds(
                        pattern,
                        headers::name_text(#[trigger] names@[j]),
                    ) ==> !headers::request_fields(*header).dom().contains(
                        headers::name_text(names@[j]),
                    ),
            decreases names@.len() - i,
        {
            if self.regex.is_match(names[i].as_str()) {
                headers::request_remove_name(header, &names[i]);
            }
            i = i + 1;
        }
        proof {
            let after = headers::request_fields(*header);
            assert forall|k: Seq<char>| #[trigger]
                after.dom().contains(k) implies !rate_limiting::regex_finds(pattern, k) by {
                assert(f.dom().contains(k));
                let j = choose|j: int|
                    0 <= j < names@.len() && headers::name_text(#[trigger] names@[j]) == k;
                assert(headers::name_text(names@[j]) == k);
            }
            assert(after =~= without_matches(f, pattern));
        }
        Ok(())
    }
}

impl RequestModifyMod for UpsertHeader {
    open spec fn contents(&self) -> ModifierV {
        self@
    }

    fn upstream_request_filter(&self, header: &mut RequestHeader) -> (r: Result<(), String>) {
        headers::request_remove(header, self.key.as_str());
        headers::request_append(header, self.key.as_str(), self.value.as_str())
    }
}

/// One filter for requests on their way to the backend.
#[derive(Debug)]
pub enum RequestModifier {
    RemoveHeaderKeyRegex(RemoveHeaderKeyRegex),
    UpsertHeader(UpsertHeader),
}

impl View for RequestModifier {
    type V = ModifierV;

    open spec fn view(&self) -> ModifierV {
        match self {
            RequestModifier::RemoveHeaderKeyRegex(m) => m@,
            RequestModifier::UpsertHeader(m) => m@,
        }
    }
}

impl RequestModifyMod for RequestModifier {
    open spec fn contents(&self) -> ModifierV {
        self@
    }

    fn upstream_request_filter(&self, header: &mut RequestHeader) -> (r: Result<(), String>) {
        match self {
            RequestModifier::RemoveHeaderKeyRegex(m) => m.upstream_request_filter(header),
            RequestModifier::UpsertHeader(m) => m.upstream_request_filter(header),
        }
    }
}

} // verus!
