//! Filters that change the header of a response on its way back to the client.
use crate::proxy::headers;
use crate::proxy::rate_limiting;
use crate::proxy::request_modifiers;
use crate::proxy::request_modifiers::{ModifierV, RemoveHeaderKeyRegex, UpsertHeader};
use pingora_http::ResponseHeader;
use vstd::prelude::*;

verus! {

/// A filter for the header of a response.
pub trait ResponseModifyMod {
    /// The contents of the filter.
    spec fn changes(&self) -> ModifierV;

    /// Changes the header of a response; a field that is refused is left out.
    fn upstream_response_filter(&self, header: &mut ResponseHeader)
        requires
            self.changes().has_room(headers::response_fields(*old(header))),
        ensures
            headers::response_status(*final(header)) == headers::response_status(*old(header)),
            headers::response_fields(*final(header)) == self.changes().outcome(
                headers::response_fields(*old(header)),
            ).0,
    ;
}

impl ResponseModifyMod for RemoveHeaderKeyRegex {
    open spec fn changes(&self) -> ModifierV {
        self@
    }

    fn upstream_response_filter(&self, header: &mut ResponseHeader) {
        let ghost f = headers::response_fields(*header);
        let ghost pattern = self.regex@;
        let names = headers::response_keys(header);
        let mut i: usize = 0;
        while i < names.len()
            invariant
                i <= names@.len(),
                pattern == self.regex@,
                headers::response_status(*header) == headers::response_status(*old(header)),
                forall|k: Seq<char>| #[trigger]
                    headers::response_fields(*header).dom().contains(k) ==> f.dom().contains(k)
                        && headers::response_fields(*header)[k] == f[k],
                forall|k: Seq<char>| #[trigger]
                    f.dom().contains(k) && !rate_limiting::regex_finds(pattern, k)
                        ==> headers::response_fields(*header).dom().contains(k),
                forall|j: int|
                    0 <= j < i && rate_limiting::regex_finds(
                        pattern,
                        headers::name_text(#[trigger] names@[j]),
                    ) ==> !headers::response_fields(*header).dom().contains(
                        headers::name_text(names@[j]),
                    ),
            decreases names@.len() - i,
        {
            if self.regex.is_match(names[i].as_str()) {
                headers::response_remove_name(header, &names[i]);
            }
            i = i + 1;
        }
        proof {
            let after = headers::response_fields(*header);
            assert forall|k: Seq<char>| #[trigger]
                after.dom().contains(k) implies !rate_limiting::regex_finds(pattern, k) by {
                assert(f.dom().contains(k));
                let j = choose|j: int|
                    0 <= j < names@.len() && headers::name_text(#[trigger] names@[j]) == k;
                assert(headers::name_text(names@[j]) == k);
            }
            assert(after =~= request_modifiers::without_matches(f, pattern));
        }
    }
}

impl ResponseModifyMod for UpsertHeader {
    open spec fn changes(&self) -> ModifierV {
        self@
    }

    fn upstream_response_filter(&self, header: &mut ResponseHeader) {
        headers::response_remove(header, self.key.as_str());
        let _ = headers::response_append(header, self.key.as_str(), self.value.as_str());
    }
}

/// One filter for responses on their way back.
#[derive(Debug)]
pub enum ResponseModifier {
    RemoveHeaderKeyRegex(RemoveHeaderKeyRegex),
    UpsertHeader(UpsertHeader),
}

impl View for ResponseModifier {
    type V = ModifierV;

    open spec fn view(&self) -> ModifierV {
        match self {
            ResponseModifier::RemoveHeaderKeyRegex(m) => m@,
            ResponseModifier::UpsertHeader(m) => m@,
        }
    }
}

impl ResponseModifyMod for ResponseModifier {
    open spec fn changes(&self) -> ModifierV {
        self@
    }

    fn upstream_response_filter(&self, header: &mut ResponseHeader) {
        match self {
            ResponseModifier::RemoveHeaderKeyRegex(m) => m.upstream_response_filter(header),
            ResponseModifier::UpsertHeader(m) => m.upstream_response_filter(header),
        }
    }
}

} // verus!
