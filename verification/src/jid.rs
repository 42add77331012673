//! Jabber identifiers: the XMPP addressing triple local/domain/resource.

use vstd::prelude::*;

use crate::xml::parse::scan_to;

verus! {

/// Mathematical model of a JID: the three components as character sequences.
#[verifier::ext_equal]
pub struct JidModel {
    pub local: Option<Seq<char>>,
    pub domain: Seq<char>,
    pub resource: Option<Seq<char>>,
}

/// A Jabber identifier. `local` and `resource` are optional; `domain` is not.
pub struct Jid {
    local: Option<String>,
    domain: String,
    resource: Option<String>,
}

impl View for Jid {
    type V = JidModel;

    closed spec fn view(&self) -> JidModel {
        JidModel {
            local: match self.local {
                Some(l) => Some(l@),
                None => None,
            },
            domain: self.domain@,
            resource: match self.resource {
                Some(r) => Some(r@),
                None => None,
            },
        }
    }
}

impl Jid {
    /// Builds a JID from its components.
    pub fn new(local: Option<String>, domain: String, resource: Option<String>) -> (r: Jid)
        ensures
            r@.local == match local {
                Some(l) => Some(l@),
                None => None::<Seq<char>>,
            },
            r@.domain == domain@,
            r@.resource == match resource {
                Some(s) => Some(s@),
                None => None::<Seq<char>>,
            },
    {
        Jid { local, domain, resource }
    }

    /// Replaces the resource with the given one, keeping local and domain.
    pub fn bind(&self, resource: String) -> (r: Jid)
        ensures
            r@.local == self@.local,
            r@.domain == self@.domain,
            r@.resource == Some(resource@),
    {
        Jid {
            local: clone_opt_string(&self.local),
            domain: self.domain.clone(),
            resource: Some(resource),
        }
    }

    /// Drops the resource, keeping local and domain.
    pub fn bare(&self) -> (r: Jid)
        ensures
            r@.local == self@.local,
            r@.domain == self@.domain,
            r@.resource is None,
    {
        Jid {
            local: clone_opt_string(&self.local),
            domain: self.domain.clone(),
            resource: None,
        }
    }
}


/// The model of an optional JID.
pub open spec fn opt_jid_model(o: Option<Jid>) -> Option<JidModel> {
    match o {
        Some(j) => Some(j@),
        None => None,
    }
}

/// Error of JID parsing: the text has an empty component.
#[derive(Debug)]
pub enum JidError {
    Malformed,
}

/// The parse of a JID text: an optional local part before the first `@`,
/// a domain, and an optional resource after the first `/` following the
/// domain. A JID with an empty component is malformed.
pub open spec fn parse_jid_spec(s: Seq<char>) -> Option<JidModel> {
    let at = scan_to(s, 0, seq!['@']);
    let rest_start: int = if at < s.len() {
        at + 1
    } else {
        0
    };
    let slash = scan_to(s, rest_start, seq!['/']);
    let local: Option<Seq<char>> = if at < s.len() {
        Some(s.take(at))
    } else {
        None
    };
    let domain = s.subrange(rest_start, slash);
    let resource: Option<Seq<char>> = if slash < s.len() {
        Some(s.subrange(slash + 1, s.len() as int))
    } else {
        None
    };
    if (local matches Some(l) && l.len() == 0) || domain.len() == 0 || (resource matches Some(r)
        && r.len() == 0) {
        None
    } else {
        Some(JidModel { local, domain, resource })
    }
}

/// The textual form of a JID: `local@domain/resource` with the optional
/// parts omitted.
pub open spec fn jid_text(j: JidModel) -> Seq<char> {
    let front = match j.local {
        Some(l) => l + seq!['@'],
        None => Seq::empty(),
    };
    let back = match j.resource {
        Some(r) => seq!['/'] + r,
        None => Seq::empty(),
    };
    front + j.domain + back
}

impl Jid {
    /// Parses the textual form, rejecting empty components.
    pub fn parse_text(s: &str) -> (r: Result<Jid, JidError>)
        ensures
            match r {
                Ok(j) => parse_jid_spec(s@) == Some(j@),
                Err(_) => parse_jid_spec(s@) is None,
            },
    {
        proof {
            reveal_strlit("@");
            reveal_strlit("/");
            assert("@"@ =~= seq!['@']);
            assert("/"@ =~= seq!['/']);
        }
        let n = s.unicode_len();
        let at = crate::xml::parser::e_scan_to(s, "@", 0);
        let rest_start: usize = if at < n {
            at + 1
        } else {
            0
        };
        let slash = crate::xml::parser::e_scan_to(s, "/", rest_start);
        let local: Option<String> = if at < n {
            Some(s.substring_char(0, at).to_owned())
        } else {
            None
        };
        let domain = s.substring_char(rest_start, slash).to_owned();
        let resource: Option<String> = if slash < n {
            Some(s.substring_char(slash + 1, n).to_owned())
        } else {
            None
        };
        let local_empty = match &local {
            Some(l) => l.as_str().is_empty(),
            None => false,
        };
        let resource_empty = match &resource {
            Some(r) => r.as_str().is_empty(),
            None => false,
        };
        if local_empty || domain.as_str().is_empty() || resource_empty {
            Err(JidError::Malformed)
        } else {
            Ok(Jid { local, domain, resource })
        }
    }

    /// Writes the JID in its textual form.
    pub fn as_text(&self) -> (r: String)
        ensures
            r@ == jid_text(self@),
    {
        proof {
            reveal_strlit("@");
            reveal_strlit("/");
            assert("@"@ =~= seq!['@']);
            assert("/"@ =~= seq!['/']);
        }
        let mut out = String::new();
        match &self.local {
            Some(l) => {
                out.append(l.as_str());
                out.append("@");
            },
            None => {},
        }
        out.append(self.domain.as_str());
        match &self.resource {
            Some(r) => {
                out.append("/");
                out.append(r.as_str());
            },
            None => {},
        }
        proof {
            assert(out@ =~= jid_text(self@));
        }
        out
    }

    /// Copies the JID.
    pub fn duplicate(&self) -> (r: Jid)
        ensures
            r@ == self@,
    {
        Jid {
            local: clone_opt_string(&self.local),
            domain: self.domain.clone(),
            resource: clone_opt_string(&self.resource),
        }
    }
}

impl PartialEq for Jid {
    /// Componentwise equality.
    fn eq(&self, other: &Jid) -> (r: bool) {
        let local_eq = match (&self.local, &other.local) {
            (Some(a), Some(b)) => crate::xml::str_eq(a.as_str(), b.as_str()),
            (None, None) => true,
            _ => false,
        };
        let resource_eq = match (&self.resource, &other.resource) {
            (Some(a), Some(b)) => crate::xml::str_eq(a.as_str(), b.as_str()),
            (None, None) => true,
            _ => false,
        };
        let r = local_eq && crate::xml::str_eq(self.domain.as_str(), other.domain.as_str())
            && resource_eq;
        proof {
            if r {
                assert(self@ =~= other@);
            }
        }
        r
    }
}

impl vstd::std_specs::cmp::PartialEqSpecImpl for Jid {
    open spec fn obeys_eq_spec() -> bool {
        true
    }

    open spec fn eq_spec(&self, other: &Jid) -> bool {
        self@ == other@
    }
}

impl Eq for Jid {

}

fn clone_opt_string(s: &Option<String>) -> (r: Option<String>)
    ensures
        match (s, &r) {
            (Some(a), Some(b)) => a@ == b@,
            (None, None) => true,
            _ => false,
        },
{
    match s {
        Some(x) => Some(x.clone()),
        None => None,
    }
}

} // verus!
