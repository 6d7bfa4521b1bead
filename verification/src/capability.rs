//! One capability token: a named, optional protocol extension in one of its
//! three syntactic shapes (bare, with values, or disabled).
//!
//! Negotiation bookkeeping compares capabilities by name alone; full
//! structural equality exists only for exact comparisons.

use vstd::prelude::*;

use crate::text::{join_strs, push_char, spec_join};

verus! {

/// The mathematical shape of a capability: its texts as character sequences.
pub enum CapabilityModel {
    Single(Seq<char>),
    Values(Seq<char>, Seq<Seq<char>>),
    Disabled(Seq<char>),
}

/// The name under which negotiation tracks a capability, whatever its shape.
pub open spec fn cap_name(c: CapabilityModel) -> Seq<char> {
    match c {
        CapabilityModel::Single(n) => n,
        CapabilityModel::Values(n, _) => n,
        CapabilityModel::Disabled(n) => n,
    }
}

/// The canonical text of a capability: `name`, `name=v1,v2` or `-name`.
pub open spec fn spec_cap_text(c: CapabilityModel) -> Seq<char> {
    match c {
        CapabilityModel::Single(n) => n,
        CapabilityModel::Values(k, vs) => k + seq!['='] + spec_join(vs, seq![',']),
        CapabilityModel::Disabled(n) => seq!['-'] + n,
    }
}

#[derive(Debug, Clone, PartialEq)]
pub enum Capability {
    Single(String),
    Values(String, Vec<String>),
    Disabled(String),
}

impl View for Capability {
    type V = CapabilityModel;

    open spec fn view(&self) -> CapabilityModel {
        match self {
            Capability::Single(n) => CapabilityModel::Single(n@),
            Capability::Values(k, vs) => CapabilityModel::Values(k@, vs.deep_view()),
            Capability::Disabled(n) => CapabilityModel::Disabled(n@),
        }
    }
}

impl DeepView for Capability {
    type V = CapabilityModel;

    open spec fn deep_view(&self) -> CapabilityModel {
        self.view()
    }
}

impl Capability {
    /// A bare enabled capability.
    pub fn new(value: &str) -> (r: Self)
        ensures
            r@ == CapabilityModel::Single(value@),
    {
        Capability::Single(value.to_owned())
    }

    /// An enabled capability carrying a list of values.
    pub fn values(key: &str, values: Vec<&'static str>) -> (r: Self)
        ensures
            r@ == CapabilityModel::Values(key@, values.deep_view()),
    {
        let mut vs: Vec<String> = Vec::new();
        let mut i: usize = 0;
        while i < values.len()
            invariant
                i <= values.len(),
                vs.deep_view() =~= values.deep_view().subrange(0, i as int),
            decreases values.len() - i,
        {
            vs.push(values[i].to_owned());
            proof {
                assert(vs.deep_view() =~= values.deep_view().subrange(0, i as int).push(
                    values.deep_view()[i as int],
                ));
                assert(values.deep_view().subrange(0, i as int + 1) =~= values.deep_view().subrange(
                    0,
                    i as int,
                ).push(values.deep_view()[i as int]));
            }
            i += 1;
        }
        proof {
            assert(values.deep_view().subrange(0, values.len() as int) =~= values.deep_view());
        }
        Capability::Values(key.to_owned(), vs)
    }

    /// A capability marked as removed/disabled.
    pub fn disabled(value: &str) -> (r: Self)
        ensures
            r@ == CapabilityModel::Disabled(value@),
    {
        Capability::Disabled(value.to_owned())
    }

    /// The name negotiation tracks the capability by.
    pub fn name(&self) -> (r: &String)
        ensures
            r@ == cap_name(self@),
    {
        match self {
            Capability::Single(n) => n,
            Capability::Values(n, _) => n,
            Capability::Disabled(n) => n,
        }
    }

    /// The canonical wire text of the capability.
    pub fn text(&self) -> (r: String)
        ensures
            r@ == spec_cap_text(self@),
    {
        match self {
            Capability::Single(n) => n.clone(),
            Capability::Values(k, vs) => {
                let mut r = k.clone();
                push_char(&mut r, '=');
                let joined = join_strs(vs, ",");
                r.append(joined.as_str());
                proof {
                    reveal_strlit(",");
                    assert(","@ =~= seq![',']);
                    assert(r@ =~= k@ + seq!['='] + spec_join(vs.deep_view(), seq![',']));
                }
                r
            },
            Capability::Disabled(n) => {
                let mut r = String::new();
                push_char(&mut r, '-');
                r.append(n.as_str());
                proof {
                    assert(r@ =~= seq!['-'] + n@);
                }
                r
            },
        }
    }
}

} // verus!
