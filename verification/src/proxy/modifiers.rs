//! The filters of a proxy, built from its configuration, and how they are applied.
use crate::config::grammar;
use crate::config::internal;
use crate::config::internal::{PathControl, PathControlV, Settings, SettingsV};
use crate::config::properties;
use crate::proxy::extract_val;
use crate::proxy::headers;
use crate::proxy::headers::Fields;
use crate::proxy::rate_limiting;
use crate::proxy::request_modifiers;
use crate::proxy::request_modifiers::{
    ModifierV, RemoveHeaderKeyRegex, RequestModifier, RequestModifyMod, UpsertHeader,
};
use crate::proxy::response_modifiers::{ResponseModifier, ResponseModifyMod};
use crate::text;
use crate::text_map;
use crate::text_map::TextMap;
use crate::views;
use pingora_http::{RequestHeader, ResponseHeader};
use vstd::prelude::*;

verus! {

/// A filter that refuses requests by address: its settings, which name the addresses.
pub struct CidrRangeFilter {
    pub settings: Settings,
}

impl View for CidrRangeFilter {
    type V = SettingsV;

    open spec fn view(&self) -> SettingsV {
        internal::settings_view(self.settings@)
    }
}

/// All filters of a proxy.
pub struct Modifiers {
    /// Filters that can refuse a request.
    pub request_filters: Vec<CidrRangeFilter>,
    /// Filters for requests on their way to the backend.
    pub upstream_request_filters: Vec<RequestModifier>,
    /// Filters for responses on their way back.
    pub upstream_response_filters: Vec<ResponseModifier>,
}

/// The contents of `Modifiers`.
pub struct ModifiersV {
    pub request_filters: Seq<SettingsV>,
    pub upstream_request_filters: Seq<ModifierV>,
    pub upstream_response_filters: Seq<ModifierV>,
}

impl View for Modifiers {
    type V = ModifiersV;

    open spec fn view(&self) -> ModifiersV {
        ModifiersV {
            request_filters: views::views(self.request_filters@),
            upstream_request_filters: views::views(self.upstream_request_filters@),
            upstream_response_filters: views::views(self.upstream_response_filters@),
        }
    }
}

/// The filter for incoming requests that settings make.
pub open spec fn request_filter_of(s: SettingsV) -> Result<SettingsV, Seq<char>> {
    if !s.dom().contains("kind"@) {
        Err("Missing 'kind' field in request filter"@)
    } else if s["kind"@] == "block-cidr-range"@ {
        Ok(s.remove("kind"@))
    } else {
        Err("Unsupported request filter type"@)
    }
}

/// The filter for headers that settings make.
pub open spec fn modifier_of(s: SettingsV, missing: Seq<char>, unsupported: Seq<char>) -> Result<
    ModifierV,
    Seq<char>,
> {
    if !s.dom().contains("kind"@) {
        Err(missing)
    } else if s["kind"@] == "remove-header-key-regex"@ {
        request_modifiers::remove_header_of(s.remove("kind"@))
    } else if s["kind"@] == "upsert-header"@ {
        request_modifiers::upsert_header_of(s.remove("kind"@))
    } else {
        Err(unsupported)
    }
}

/// The filter for requests on their way to the backend that settings make.
pub open spec fn request_modifier_of(s: SettingsV) -> Result<ModifierV, Seq<char>> {
    modifier_of(
        s,
        "Missing 'kind' field in upstream request filter"@,
        "Unsupported upstream request filter type"@,
    )
}

/// The filter for responses that settings make.
pub open spec fn response_modifier_of(s: SettingsV) -> Result<ModifierV, Seq<char>> {
    modifier_of(
        s,
        "Missing 'kind' field in upstream response filter"@,
        "Unsupported upstream response filter type"@,
    )
}

/// What a list of settings makes, or the first error in it.
pub open spec fn all_of<T>(
    list: Seq<SettingsV>,
    make: spec_fn(SettingsV) -> Result<T, Seq<char>>,
) -> Result<Seq<T>, Seq<char>>
    decreases list.len(),
{
    if list.len() == 0 {
        Ok(Seq::empty())
    } else {
        match all_of(list.drop_last(), make) {
            Ok(done) => match make(list.last()) {
                Ok(x) => Ok(done.push(x)),
                Err(e) => Err(e),
            },
            Err(e) => Err(e),
        }
    }
}

/// All filters that a configuration makes, or the first error in it.
pub open spec fn modifiers_of(p: PathControlV) -> Result<ModifiersV, Seq<char>> {
    match all_of(p.request_filters, |s: SettingsV| request_filter_of(s)) {
        Err(e) => Err(e),
        Ok(request_filters) => match all_of(
            p.upstream_request_filters,
            |s: SettingsV| request_modifier_of(s),
        ) {
            Err(e) => Err(e),
            Ok(upstream_request_filters) => match all_of(
                p.upstream_response_filters,
                |s: SettingsV| response_modifier_of(s),
            ) {
                Err(e) => Err(e),
                Ok(upstream_response_filters) => Ok(
                    ModifiersV {
                        request_filters,
                        upstream_request_filters,
                        upstream_response_filters,
                    },
                ),
            },
        },
    }
}

/// An error in a list remains one however the list goes on.
proof fn lemma_all_of_prefix<T>(
    list: Seq<SettingsV>,
    k: int,
    make: spec_fn(SettingsV) -> Result<T, Seq<char>>,
)
    requires
        0 <= k <= list.len(),
    ensures
        all_of(list.take(k), make) matches Err(e) ==> all_of(list, make) == Err::<Seq<T>, Seq<char>>(
            e,
        ),
    decreases list.len() - k,
{
    if k < list.len() {
        assert(list.take(k + 1).drop_last() =~= list.take(k));
        lemma_all_of_prefix(list, k + 1, make);
    } else {
        assert(list.take(k) =~= list);
    }
}

/// A copy of filter settings.
fn copy_settings(s: &Settings) -> (r: Settings)
    ensures
        internal::settings_view(r@) == internal::settings_view(s@),
{
    let n = s.len();
    let mut out: Settings = TextMap::new();
    let mut i: usize = 0;
    while i < n
        invariant
            i <= n,
            n == s.pairs().len(),
            forall|k: Seq<char>| #[trigger]
                out@.dom().contains(k) ==> s@.dom().contains(k) && out@[k]@ == s@[k]@,
            forall|j: int| 0 <= j < i ==> out@.dom().contains((#[trigger] s.pairs()[j]).0),
        decreases n - i,
    {
        let (key, value) = s.entry_at(i);
        let ghost before = out@;
        out.insert(key.to_owned(), value.clone());
        proof {
            assert forall|k: Seq<char>| #[trigger] out@.dom().contains(k) implies s@.dom().contains(
                k,
            ) && out@[k]@ == s@[k]@ by {
                if k != key@ {
                    assert(before.dom().contains(k));
                }
            }
        }
        i = i + 1;
    }
    proof {
        text_map::lemma_map_of(s.pairs());
        let a = internal::settings_view(out@);
        let b = internal::settings_view(s@);
        assert forall|k: Seq<char>| b.dom().contains(k) implies #[trigger] a.dom().contains(k) by {
            assert(s@.dom().contains(k));
            let j = choose|j: int| 0 <= j < s.pairs().len() && (#[trigger] s.pairs()[j]).0 == k;
            assert(out@.dom().contains(s.pairs()[j].0));
        }
        assert forall|k: Seq<char>| a.dom().contains(k) implies #[trigger] b.dom().contains(k)
            && a[k] == b[k] by {
            assert(out@.dom().contains(k));
        }
        assert(internal::settings_view(out@) =~= internal::settings_view(s@));
    }
    out
}

impl Modifiers {
    /// Makes the filter for incoming requests out of its settings.
    fn request_filter(settings: &Settings) -> (r: Result<CidrRangeFilter, &'static str>)
        ensures
            match request_filter_of(internal::settings_view(settings@)) {
                Ok(v) => r matches Ok(m) && m@ == v,
                Err(v) => r matches Err(e) && e@ == v,
            },
    {
        let mut rest = copy_settings(settings);
        match extract_val("kind", &mut rest) {
            Ok(kind) => if text::str_eq(kind.as_str(), "block-cidr-range") {
                Ok(CidrRangeFilter { settings: rest })
            } else {
                Err("Unsupported request filter type")
            },
            Err(_) => Err("Missing 'kind' field in request filter"),
        }
    }

    /// Makes a filter for requests on their way to the backend out of its settings.
    fn upstream_request_filter(settings: &Settings) -> (r: Result<RequestModifier, &'static str>)
        ensures
            request_modifiers::built_view(r) == request_modifier_of(
                internal::settings_view(settings@),
            ),
    {
        let mut rest = copy_settings(settings);
        match extract_val("kind", &mut rest) {
            Ok(kind) => if text::str_eq(kind.as_str(), "remove-header-key-regex") {
                match RemoveHeaderKeyRegex::from_settings(rest) {
                    Ok(m) => Ok(RequestModifier::RemoveHeaderKeyRegex(m)),
                    Err(e) => Err(e),
                }
            } else if text::str_eq(kind.as_str(), "upsert-header") {
                match UpsertHeader::from_settings(rest) {
                    Ok(m) => Ok(RequestModifier::UpsertHeader(m)),
                    Err(e) => Err(e),
                }
            } else {
                Err("Unsupported upstream request filter type")
            },
            Err(_) => Err("Missing 'kind' field in upstream request filter"),
        }
    }

    /// Makes a filter for responses out of its settings.
    fn upstream_response_filter(settings: &Settings) -> (r: Result<ResponseModifier, &'static str>)
        ensures
            request_modifiers::built_view(r) == response_modifier_of(
                internal::settings_view(settings@),
            ),
    {
        let mut rest = copy_settings(settings);
        match extract_val("kind", &mut rest) {
            Ok(kind) => if text::str_eq(kind.as_str(), "remove-header-key-regex") {
                match RemoveHeaderKeyRegex::from_settings(rest) {
                    Ok(m) => Ok(ResponseModifier::RemoveHeaderKeyRegex(m)),
                    Err(e) => Err(e),
                }
            } else if text::str_eq(kind.as_str(), "upsert-header") {
                match UpsertHeader::from_settings(rest) {
                    Ok(m) => Ok(ResponseModifier::UpsertHeader(m)),
                    Err(e) => Err(e),
                }
            } else {
                Err("Unsupported upstream response filter type")
            },
            Err(_) => Err("Missing 'kind' field in upstream response filter"),
        }
    }

    /// Makes the filters for incoming requests.
    fn request_filters(list: &Vec<Settings>) -> (r: Result<Vec<CidrRangeFilter>, &'static str>)
        ensures
            match all_of(internal::filters_view(list@), |s: SettingsV| request_filter_of(s)) {
                Ok(v) => r matches Ok(m) && views::views(m@) == v,
                Err(v) => r matches Err(e) && e@ == v,
            },
    {
        broadcast use views::group_views;

        let ghost all = internal::filters_view(list@);
        let ghost make = |s: SettingsV| request_filter_of(s);
        let mut out: Vec<CidrRangeFilter> = Vec::new();
        let mut i: usize = 0;
        assert(all.take(0) =~= Seq::<SettingsV>::empty());
        while i < list.len()
            invariant
                i <= list@.len(),
                all == internal::filters_view(list@),
                make == (|s: SettingsV| request_filter_of(s)),
                all_of(all.take(i as int), make) == Ok::<Seq<SettingsV>, Seq<char>>(
                    views::views(out@),
                ),
            decreases list@.len() - i,
        {
            broadcast use views::group_views;

            proof {
                assert(all.take(i + 1).drop_last() =~= all.take(i as int));
                assert(all.take(i + 1).last() == internal::settings_view(list@[i as int]@));
                lemma_all_of_prefix(all, i + 1, make);
            }
            match Modifiers::request_filter(&list[i]) {
                Ok(m) => {
                    out.push(m);
                },
                Err(e) => {
                    return Err(e);
                },
            }
            i = i + 1;
        }
        assert(all.take(i as int) =~= all);
        Ok(out)
    }

    /// Makes the filters for requests on their way to the backend.
    fn upstream_request_filters(list: &Vec<Settings>) -> (r: Result<
        Vec<RequestModifier>,
        &'static str,
    >)
        ensures
            match all_of(internal::filters_view(list@), |s: SettingsV| request_modifier_of(s)) {
                Ok(v) => r matches Ok(m) && views::views(m@) == v,
                Err(v) => r matches Err(e) && e@ == v,
            },
    {
        broadcast use views::group_views;

        let ghost all = internal::filters_view(list@);
        let ghost make = |s: SettingsV| request_modifier_of(s);
        let mut out: Vec<RequestModifier> = Vec::new();
        let mut i: usize = 0;
        assert(all.take(0) =~= Seq::<SettingsV>::empty());
        while i < list.len()
            invariant
                i <= list@.len(),
                all == internal::filters_view(list@),
                make == (|s: SettingsV| request_modifier_of(s)),
                all_of(all.take(i as int), make) == Ok::<Seq<ModifierV>, Seq<char>>(
                    views::views(out@),
                ),
            decreases list@.len() - i,
        {
            broadcast use views::group_views;

            proof {
                assert(all.take(i + 1).drop_last() =~= all.take(i as int));
                assert(all.take(i + 1).last() == internal::settings_view(list@[i as int]@));
                lemma_all_of_prefix(all, i + 1, make);
            }
            match Modifiers::upstream_request_filter(&list[i]) {
                Ok(m) => {
                    out.push(m);
                },
                Err(e) => {
                    return Err(e);
                },
            }
            i = i + 1;
        }
        assert(all.take(i as int) =~= all);
        Ok(out)
    }

    /// Makes the filters for responses.
    fn upstream_response_filters(list: &Vec<Settings>) -> (r: Result<
        Vec<ResponseModifier>,
        &'static str,
    >)
        ensures
            match all_of(internal::filters_view(list@), |s: SettingsV| response_modifier_of(s)) {
                Ok(v) => r matches Ok(m) && views::views(m@) == v,
                Err(v) => r matches Err(e) && e@ == v,
            },
    {
        broadcast use views::group_views;

        let ghost all = internal::filters_view(list@);
        let ghost make = |s: SettingsV| response_modifier_of(s);
        let mut out: Vec<ResponseModifier> = Vec::new();
        let mut i: usize = 0;
        assert(all.take(0) =~= Seq::<SettingsV>::empty());
        while i < list.len()
            invariant
                i <= list@.len(),
                all == internal::filters_view(list@),
                make == (|s: SettingsV| response_modifier_of(s)),
                all_of(all.take(i as int), make) == Ok::<Seq<ModifierV>, Seq<char>>(
                    views::views(out@),
                ),
            decreases list@.len() - i,
        {
            broadcast use views::group_views;

            proof {
                assert(all.take(i + 1).drop_last() =~= all.take(i as int));
                assert(all.take(i + 1).last() == internal::settings_view(list@[i as int]@));
                lemma_all_of_prefix(all, i + 1, make);
            }
            match Modifiers::upstream_response_filter(&list[i]) {
                Ok(m) => {
                    out.push(m);
                },
                Err(e) => {
                    return Err(e);
                },
            }
            i = i + 1;
        }
        assert(all.take(i as int) =~= all);
        Ok(out)
    }

    /// Makes all filters of a proxy.
    pub fn from_conf(conf: &PathControl) -> (r: Result<Modifiers, &'static str>)
        ensures
            match modifiers_of(conf@) {
                Ok(v) => r matches Ok(m) && m@ == v,
                Err(v) => r matches Err(e) && e@ == v,
            },
    {
        let request_filters = match Modifiers::request_filters(&conf.request_filters) {
            Ok(v) => v,
            Err(e) => {
                return Err(e);
            },
        };
        let upstream_request_filters = match Modifiers::upstream_request_filters(
            &conf.upstream_request_filters,
        ) {
            Ok(v) => v,
            Err(e) => {
                return Err(e);
            },
        };
        let upstream_response_filters = match Modifiers::upstream_response_filters(
            &conf.upstream_response_filters,
        ) {
            Ok(v) => v,
            Err(e) => {
                return Err(e);
            },
        };
        Ok(Modifiers { request_filters, upstream_request_filters, upstream_response_filters })
    }
}

/// The fields that filters for requests leave, one behind the other, up to the first error.
pub open spec fn request_changes(mods: Seq<ModifierV>, f: Fields) -> (Fields, Option<Seq<char>>)
    decreases mods.len(),
{
    if mods.len() == 0 {
        (f, None)
    } else {
        let (g, e) = mods[0].outcome(f);
        if e is Some {
            (g, e)
        } else {
            request_changes(mods.skip(1), g)
        }
    }
}

/// The fields that filters for responses leave, one behind the other.
pub open spec fn response_changes(mods: Seq<ModifierV>, f: Fields) -> Fields
    decreases mods.len(),
{
    if mods.len() == 0 {
        f
    } else {
        response_changes(mods.skip(1), mods[0].outcome(f).0)
    }
}

/// How many of the filters can add a name.
pub open spec fn appending(mods: Seq<ModifierV>) -> nat
    decreases mods.len(),
{
    if mods.len() == 0 {
        0
    } else if mods[0].appends() {
        1 + appending(mods.skip(1))
    } else {
        appending(mods.skip(1))
    }
}

/// Whether there is room for the names that filters can add.
pub open spec fn fits(mods: Seq<ModifierV>, f: Fields) -> bool {
    appending(mods) > 0 ==> headers::room(f, appending(mods) as int)
}

/// A filter takes room for one name at most, and for none where it only removes.
pub proof fn lemma_outcome_room(m: ModifierV, f: Fields, more: int)
    requires
        headers::room(f, more + if m.appends() { 1int } else { 0int }),
    ensures
        headers::room(m.outcome(f).0, more),
{
    match m {
        ModifierV::RemoveHeaderKeyRegex { pattern } => {
            let g = request_modifiers::without_matches(f, pattern);
            assert(g.dom().subset_of(f.dom()));
            vstd::set_lib::lemma_len_subset(g.dom(), f.dom());
        },
        ModifierV::UpsertHeader { key, value } => {
            let k = text::lowered(key);
            let g = headers::without(f, key);
            headers::lemma_room(f, key, Seq::<Seq<u8>>::empty(), more);
            headers::lemma_room(f, k, Seq::<Seq<u8>>::empty(), more);
            headers::lemma_room(
                g,
                k,
                headers::values_at(g, k).push(vstd::utf8::encode_utf8(value)),
                more,
            );
        },
    }
}

/// Filters take room for the names that they can add, and no more.
pub proof fn lemma_changes_room(mods: Seq<ModifierV>, f: Fields, more: int)
    requires
        headers::room(f, more + appending(mods)),
    ensures
        headers::room(response_changes(mods, f), more),
    decreases mods.len(),
{
    if mods.len() > 0 {
        lemma_outcome_room(mods[0], f, more + appending(mods.skip(1)));
        lemma_changes_room(mods.skip(1), mods[0].outcome(f).0, more);
    }
}

/// One filter behind another has the room that is left.
proof fn lemma_fits_behind(mods: Seq<ModifierV>, f: Fields)
    requires
        mods.len() > 0,
        fits(mods, f),
    ensures
        mods[0].has_room(f),
        fits(mods.skip(1), mods[0].outcome(f).0),
{
    if let ModifierV::UpsertHeader { key, .. } = mods[0] {
        headers::lemma_room(f, key, Seq::<Seq<u8>>::empty(), 0);
    }
    if appending(mods) > 0 {
        lemma_outcome_room(mods[0], f, appending(mods.skip(1)) as int);
    }
}

impl Modifiers {
    /// Whether a request header has room for the names that the filters can add.
    pub fn request_fits(&self, header: &RequestHeader) -> (r: bool)
        ensures
            r == fits(self@.upstream_request_filters, headers::request_fields(*header)),
    {
        let ghost mods = self@.upstream_request_filters;
        let total = self.upstream_request_filters.len();
        let mut n: usize = 0;
        let mut i: usize = total;
        assert(mods.skip(i as int) =~= Seq::<ModifierV>::empty());
        while i > 0
            invariant
                i <= total,
                total == self.upstream_request_filters@.len(),
                mods == self@.upstream_request_filters,
                n == appending(mods.skip(i as int)),
                n + i <= total,
            decreases i,
        {
            i = i - 1;
            proof {
                assert(mods.skip(i as int)[0] == self.upstream_request_filters@[i as int]@);
                assert(mods.skip(i as int).skip(1) =~= mods.skip(i + 1));
            }
            if let RequestModifier::UpsertHeader(_) = &self.upstream_request_filters[i] {
                n = n + 1;
            }
        }
        assert(mods.skip(0) =~= mods);
        n == 0 || headers::request_has_room(header, n)
    }

    /// How many of the filters for responses can add a name.
    pub fn response_additions(filters: &Vec<ResponseModifier>) -> (r: usize)
        ensures
            r == appending(views::views(filters@)),
    {
        let ghost mods = views::views(filters@);
        let total = filters.len();
        let mut n: usize = 0;
        let mut i: usize = total;
        assert(mods.skip(i as int) =~= Seq::<ModifierV>::empty());
        while i > 0
            invariant
                i <= total,
                total == filters@.len(),
                mods == views::views(filters@),
                n == appending(mods.skip(i as int)),
                n + i <= total,
            decreases i,
        {
            i = i - 1;
            proof {
                assert(mods.skip(i as int)[0] == filters@[i as int]@);
                assert(mods.skip(i as int).skip(1) =~= mods.skip(i + 1));
            }
            if let ResponseModifier::UpsertHeader(_) = &filters[i] {
                n = n + 1;
            }
        }
        assert(mods.skip(0) =~= mods);
        n
    }

    /// Changes the header of a request on its way to the backend, filter by filter, up to the
    /// first that fails.
    pub fn change_request(&self, header: &mut RequestHeader) -> (r: Result<(), String>)
        requires
            fits(self@.upstream_request_filters, headers::request_fields(*old(header))),
        ensures
            headers::request_method(*final(header)) == headers::request_method(*old(header)),
            headers::request_uri(*final(header)) == headers::request_uri(*old(header)),
            headers::request_version(*final(header)) == headers::request_version(*old(header)),
            ({
                let (f, e) = request_changes(
                    self@.upstream_request_filters,
                    headers::request_fields(*old(header)),
                );
                headers::request_fields(*final(header)) == f && match e {
                    Some(text) => r matches Err(x) && x@ == text,
                    None => r is Ok,
                }
            }),
    {
        let ghost mods = self@.upstream_request_filters;
        let n = self.upstream_request_filters.len();
        assert(mods.skip(0) =~= mods);
        let mut i: usize = 0;
        while i < n
            invariant
                i <= n,
                n == self.upstream_request_filters@.len(),
                mods == self@.upstream_request_filters,
                fits(mods.skip(i as int), headers::request_fields(*header)),
                headers::request_method(*header) == headers::request_method(*old(header)),
                headers::request_uri(*header) == headers::request_uri(*old(header)),
                headers::request_version(*header) == headers::request_version(*old(header)),
                request_changes(mods, headers::request_fields(*old(header))) == request_changes(
                    mods.skip(i as int),
                    headers::request_fields(*header),
                ),
            decreases n - i,
        {
            proof {
                let f = headers::request_fields(*header);
                assert(mods.skip(i as int)[0] == self.upstream_request_filters@[i as int]@);
                assert(mods.skip(i as int).skip(1) =~= mods.skip(i + 1));
                lemma_fits_behind(mods.skip(i as int), f);
            }
            self.upstream_request_filters[i].upstream_request_filter(header)?;
            i = i + 1;
        }
        Ok(())
    }

    /// Changes the header of a response, filter by filter.
    pub fn change_response(filters: &Vec<ResponseModifier>, header: &mut ResponseHeader)
        requires
            fits(views::views(filters@), headers::response_fields(*old(header))),
        ensures
            headers::response_status(*final(header)) == headers::response_status(*old(header)),
            headers::response_fields(*final(header)) == response_changes(
                views::views(filters@),
                headers::response_fields(*old(header)),
            ),
    {
        let ghost mods = views::views(filters@);
        let n = filters.len();
        assert(mods.skip(0) =~= mods);
        let mut i: usize = 0;
        while i < n
            invariant
                i <= n,
                n == filters@.len(),
                mods == views::views(filters@),
                fits(mods.skip(i as int), headers::response_fields(*header)),
                headers::response_status(*header) == headers::response_status(*old(header)),
                response_changes(mods, headers::response_fields(*old(header)))
                    == response_changes(mods.skip(i as int), headers::response_fields(*header)),
            decreases n - i,
        {
            proof {
                let f = headers::response_fields(*header);
                assert(mods.skip(i as int)[0] == filters@[i as int]@);
                assert(mods.skip(i as int).skip(1) =~= mods.skip(i + 1));
                lemma_fits_behind(mods.skip(i as int), f);
            }
            filters[i].upstream_response_filter(header);
            i = i + 1;
        }
    }
}

/// Every pattern in a list of filter settings compiles.
pub open spec fn patterns_compile(list: Seq<SettingsV>) -> bool {
    forall|i: int|
        0 <= i < list.len() && (#[trigger] list[i]).dom().contains("pattern"@)
            ==> rate_limiting::regex_refusal(list[i]["pattern"@]) is None
}

proof fn lemma_block_filters(list: Seq<SettingsV>)
    requires
        forall|i: int| 0 <= i < list.len() ==> properties::is_block_filter(#[trigger] list[i]),
    ensures
        all_of(list, |s: SettingsV| request_filter_of(s)) is Ok,
    decreases list.len(),
{
    if list.len() > 0 {
        let front = list.drop_last();
        assert forall|i: int| 0 <= i < front.len() implies properties::is_block_filter(
            #[trigger] front[i],
        ) by {
            assert(front[i] == list[i]);
        }
        lemma_block_filters(front);
        reveal_strlit("kind");
        reveal_strlit("addrs");
        assert("kind"@.len() != "addrs"@.len());
        assert(properties::is_block_filter(list[list.len() - 1]));
    }
}

proof fn lemma_header_filter(s: SettingsV, missing: Seq<char>, unsupported: Seq<char>)
    requires
        properties::is_header_filter(s),
    ensures
        match modifier_of(s, missing, unsupported) {
            Ok(_) => true,
            Err(e) => e == "Error building regex"@ && s.dom().contains("pattern"@)
                && rate_limiting::regex_refusal(s["pattern"@]) is Some,
        },
{
    reveal_strlit("kind");
    reveal_strlit("key");
    reveal_strlit("value");
    reveal_strlit("pattern");
    reveal_strlit("upsert-header");
    reveal_strlit("remove-header-key-regex");
    assert("kind"@.len() == 4 && "key"@.len() == 3 && "value"@.len() == 5);
    assert("pattern"@.len() == 7);
    assert("upsert-header"@.len() != "remove-header-key-regex"@.len());
    if exists|v: Seq<char>| s == grammar::filter_one("remove-header-key-regex"@, "pattern"@, v) {
        let v = choose|v: Seq<char>|
            s == grammar::filter_one("remove-header-key-regex"@, "pattern"@, v);
        assert(s.remove("kind"@).remove("pattern"@) =~= Map::<Seq<char>, Seq<char>>::empty());
    } else {
        let (k, v) = choose|k: Seq<char>, v: Seq<char>| s == #[trigger] grammar::filter_upsert(k, v);
        assert(s.dom().contains("key"@) && s.dom().contains("value"@));
    }
}

proof fn lemma_header_filters(list: Seq<SettingsV>, missing: Seq<char>, unsupported: Seq<char>)
    requires
        forall|i: int| 0 <= i < list.len() ==> properties::is_header_filter(#[trigger] list[i]),
    ensures
        match all_of(list, |s: SettingsV| modifier_of(s, missing, unsupported)) {
            Ok(_) => true,
            Err(e) => e == "Error building regex"@ && !patterns_compile(list),
        },
    decreases list.len(),
{
    if list.len() > 0 {
        let front = list.drop_last();
        assert forall|i: int| 0 <= i < front.len() implies properties::is_header_filter(
            #[trigger] front[i],
        ) by {
            assert(front[i] == list[i]);
        }
        lemma_header_filters(front, missing, unsupported);
        let last = list[list.len() - 1];
        assert(properties::is_header_filter(last));
        lemma_header_filter(last, missing, unsupported);
        if !patterns_compile(front) {
            let i = choose|i: int|
                0 <= i < front.len() && (#[trigger] front[i]).dom().contains("pattern"@)
                    && rate_limiting::regex_refusal(front[i]["pattern"@]) is Some;
            assert(list[i] == front[i]);
        }
    }
}

/// The filters of every proxy that is read from a text can be built, unless a pattern among them
/// does not compile; that is then the error. What a filter says of addresses is not read here, so
/// one that refuses requests by address is always built.
pub proof fn law_parsed_filters_can_be_built(t: Seq<char>, i: int)
    ensures
        grammar::meaning(t) matches Ok(c) ==> 0 <= i < c.basic_proxies.len() ==> {
            let p = c.basic_proxies[i].path_control;
            match modifiers_of(p) {
                Ok(_) => true,
                Err(e) => e == "Error building regex"@ && !(patterns_compile(
                    p.upstream_request_filters,
                ) && patterns_compile(p.upstream_response_filters)),
            }
        },
{
    properties::law_servers_are_complete(t);
    if let Ok(c) = grammar::meaning(t) {
        if 0 <= i < c.basic_proxies.len() {
            assert(properties::proxy_complete(c.basic_proxies[i]));
            let p = c.basic_proxies[i].path_control;
            lemma_block_filters(p.request_filters);
            lemma_header_filters(
                p.upstream_request_filters,
                "Missing 'kind' field in upstream request filter"@,
                "Unsupported upstream request filter type"@,
            );
            lemma_header_filters(
                p.upstream_response_filters,
                "Missing 'kind' field in upstream response filter"@,
                "Unsupported upstream response filter type"@,
            );
            assert((|s: SettingsV| request_modifier_of(s)) =~= (|s: SettingsV|
                modifier_of(
                    s,
                    "Missing 'kind' field in upstream request filter"@,
                    "Unsupported upstream request filter type"@,
                )));
            assert((|s: SettingsV| response_modifier_of(s)) =~= (|s: SettingsV|
                modifier_of(
                    s,
                    "Missing 'kind' field in upstream response filter"@,
                    "Unsupported upstream response filter type"@,
                )));
        }
    }
}

} // verus!
