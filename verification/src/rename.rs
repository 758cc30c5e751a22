//! The renaming resolver: how a declared identifier maps to its externally
//! visible wire name.
//!
//! A per-field override wins; otherwise the object's policy decides between
//! keeping the identifier and the default transform, which turns a
//! snake-case identifier into a lower-camel-case wire name.

use vstd::prelude::*;

use crate::text::{push_char, to_upper, upper_char};

verus! {

/// The object-level rule for deriving wire names from identifiers.
#[derive(Debug, Clone, Copy, PartialEq, Eq, Structural)]
pub enum RenamePolicy {
    /// Snake-case identifiers become lower-camel-case wire names.
    DefaultTransform,
    /// Identifiers are used verbatim.
    Identity,
}

pub open spec fn camel_rec(s: Seq<char>, up: bool) -> Seq<char>
    decreases s.len(),
{
    if s.len() == 0 {
        Seq::empty()
    } else if s[0] == '_' {
        camel_rec(s.skip(1), true)
    } else if up {
        seq![upper_char(s[0])] + camel_rec(s.skip(1), false)
    } else {
        seq![s[0]] + camel_rec(s.skip(1), false)
    }
}

/// The default transform: underscores are dropped and each character that
/// followed one is upper-cased.
pub open spec fn camel_case(s: Seq<char>) -> Seq<char> {
    camel_rec(s, false)
}

/// What [`resolve_wire_name`] returns: the override verbatim if one is given,
/// the identifier itself under the identity policy, and the default transform
/// otherwise.
pub open spec fn resolve_name(
    source: Seq<char>,
    policy: RenamePolicy,
    field_override: Option<Seq<char>>,
) -> Seq<char> {
    match field_override {
        Option::Some(o) => o,
        Option::None => if policy is Identity {
            source
        } else {
            camel_case(source)
        },
    }
}

/// Applies the default transform to one identifier.
pub fn camelize(s: &str) -> (r: String)
    ensures
        r@ == camel_case(s@),
{
    let n = s.unicode_len();
    let mut out = String::new();
    let mut up = false;
    let mut i: usize = 0;
    proof {
        assert(s@.skip(0) =~= s@);
        assert(Seq::<char>::empty() + camel_case(s@) =~= camel_case(s@));
    }
    while i < n
        invariant
            0 <= i <= n,
            n == s@.len(),
            out@ + camel_rec(s@.skip(i as int), up) == camel_case(s@),
        decreases n - i,
    {
        let ghost pre = s@.skip(i as int);
        let c = s.get_char(i);
        proof {
            assert(pre[0] == c);
            assert(pre.skip(1) =~= s@.skip(i + 1));
        }
        if c == '_' {
            up = true;
        } else {
            let o = if up { to_upper(c) } else { c };
            let ghost old_out = out@;
            push_char(&mut out, o);
            proof {
                assert(out@ =~= old_out + seq![o]);
                assert(old_out + (seq![o] + camel_rec(s@.skip(i + 1), false)) =~= (old_out
                    + seq![o]) + camel_rec(s@.skip(i + 1), false));
            }
            up = false;
        }
        i = i + 1;
    }
    proof {
        assert(s@.skip(n as int) =~= Seq::<char>::empty());
        assert(out@ + Seq::<char>::empty() =~= out@);
    }
    out
}

/// Resolves the wire name of one field: an explicit per-field override is
/// returned verbatim; otherwise the object's rename policy is applied to the
/// declared identifier. Pure and total.
pub fn resolve_wire_name(source: &str, policy: RenamePolicy, field_override: Option<&str>) -> (r:
    String)
    ensures
        r@ == resolve_name(source@, policy, match field_override {
            Option::Some(o) => Option::Some(o@),
            Option::None => Option::None,
        }),
{
    match field_override {
        Option::Some(o) => o.to_owned(),
        Option::None => {
            match policy {
                RenamePolicy::Identity => source.to_owned(),
                RenamePolicy::DefaultTransform => camelize(source),
            }
        },
    }
}

} // verus!
