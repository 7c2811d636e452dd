//! Content codings the server can apply to a response body, their
//! preference order, and their names in `Accept-Encoding` / `Content-Encoding`.
use core::cmp::Ordering;
use vstd::prelude::*;
use vstd::std_specs::cmp::PartialOrdSpecImpl;

use crate::text::{chars_of, range_eq_str, split, split_exec, trim, trim_range};

verus! {

/// A content coding: `gzip` or Brotli (`br`).
#[derive(Clone, Copy, Debug, PartialEq, Eq, Structural)]
pub enum CompressionMethod {
    Gzip,
    Brotli,
}

/// Position in the preference order: Brotli comes before gzip.
pub open spec fn method_rank(m: CompressionMethod) -> int {
    match m {
        CompressionMethod::Brotli => 0,
        CompressionMethod::Gzip => 1,
    }
}

/// The order of two methods by preference.
pub open spec fn method_order(a: CompressionMethod, b: CompressionMethod) -> Ordering {
    if method_rank(a) < method_rank(b) {
        Ordering::Less
    } else if method_rank(a) == method_rank(b) {
        Ordering::Equal
    } else {
        Ordering::Greater
    }
}

/// The method a coding name stands for (`FromStr`): `gzip`, or `br` / `brotli`.
pub open spec fn method_from_name(s: Seq<char>) -> Option<CompressionMethod> {
    if s == "gzip"@ {
        Some(CompressionMethod::Gzip)
    } else if s == "br"@ || s == "brotli"@ {
        Some(CompressionMethod::Brotli)
    } else {
        None
    }
}

/// The token that names a method in `Content-Encoding`.
pub open spec fn method_token(m: CompressionMethod) -> Seq<char> {
    match m {
        CompressionMethod::Brotli => "br"@,
        CompressionMethod::Gzip => "gzip"@,
    }
}

/// The methods named in a comma-separated list of pieces, in order,
/// skipping pieces that (once trimmed) name no method.
pub open spec fn methods_named(pieces: Seq<Seq<char>>) -> Seq<CompressionMethod>
    decreases pieces.len(),
{
    if pieces.len() == 0 {
        seq![]
    } else {
        let rest = methods_named(pieces.drop_last());
        match method_from_name(trim(pieces.last())) {
            Some(m) => rest.push(m),
            None => rest,
        }
    }
}

/// The methods an `Accept-Encoding` value lists.
pub open spec fn accepted_methods(value: Seq<char>) -> Seq<CompressionMethod> {
    methods_named(split(value, ","@))
}

/// `v` sorted by preference, keeping the order of equal methods.
pub open spec fn sorted_methods(v: Seq<CompressionMethod>) -> Seq<CompressionMethod> {
    v.filter(|m: CompressionMethod| m == CompressionMethod::Brotli) + v.filter(
        |m: CompressionMethod| m == CompressionMethod::Gzip,
    )
}

/// The first method of `order` that `accepted` contains.
pub open spec fn first_accepted(order: Seq<CompressionMethod>, accepted: Seq<CompressionMethod>) -> Option<
    CompressionMethod,
>
    decreases order.len(),
{
    if order.len() == 0 {
        None
    } else if accepted.contains(order[0]) {
        Some(order[0])
    } else {
        first_accepted(order.drop_first(), accepted)
    }
}

impl CompressionMethod {
    /// Position in the preference order (Brotli first).
    pub fn rank(&self) -> (r: u8)
        ensures
            r as int == method_rank(*self),
    {
        match self {
            CompressionMethod::Brotli => 0,
            CompressionMethod::Gzip => 1,
        }
    }

    /// Compares two methods by preference: Brotli is less than gzip.
    pub fn compare(&self, other: &Self) -> (r: Ordering)
        ensures
            r == method_order(*self, *other),
    {
        let a = self.rank();
        let b = other.rank();
        if a < b {
            Ordering::Less
        } else if a == b {
            Ordering::Equal
        } else {
            Ordering::Greater
        }
    }

    /// Reads a coding name: `gzip`, `br` or `brotli`.
    pub fn from_name(s: &str) -> (r: Option<CompressionMethod>)
        ensures
            r == method_from_name(s@),
    {
        let c = chars_of(s);
        assert(c@.subrange(0, c@.len() as int) =~= s@);
        Self::from_chars(&c, 0, c.len())
    }

    /// Reads the coding name `s[a..b]`.
    pub fn from_chars(s: &Vec<char>, a: usize, b: usize) -> (r: Option<CompressionMethod>)
        requires
            a <= b <= s@.len(),
        ensures
            r == method_from_name(s@.subrange(a as int, b as int)),
    {
        if range_eq_str(s, a, b, "gzip") {
            Some(CompressionMethod::Gzip)
        } else if range_eq_str(s, a, b, "br") || range_eq_str(s, a, b, "brotli") {
            Some(CompressionMethod::Brotli)
        } else {
            None
        }
    }

    /// The token naming this method in `Content-Encoding`.
    pub fn token(&self) -> (r: &'static str)
        ensures
            r@ == method_token(*self),
    {
        match self {
            CompressionMethod::Brotli => "br",
            CompressionMethod::Gzip => "gzip",
        }
    }
}

impl PartialOrd for CompressionMethod {
    fn partial_cmp(&self, other: &Self) -> (r: Option<Ordering>) {
        Some(self.compare(other))
    }
}

impl PartialOrdSpecImpl for CompressionMethod {
    open spec fn obeys_partial_cmp_spec() -> bool {
        true
    }

    open spec fn partial_cmp_spec(&self, other: &Self) -> Option<Ordering> {
        Some(method_order(*self, *other))
    }
}

impl core::str::FromStr for CompressionMethod {
    type Err = ();

    fn from_str(s: &str) -> (r: Result<Self, ()>)
        ensures
            r == match method_from_name(s@) {
                Some(m) => Ok::<CompressionMethod, ()>(m),
                None => Err::<CompressionMethod, ()>(()),
            },
    {
        match CompressionMethod::from_name(s) {
            Some(m) => Ok(m),
            None => Err(()),
        }
    }
}

/// Sorts methods by preference (Brotli first), keeping equal ones in order.
pub fn sort_methods(v: &Vec<CompressionMethod>) -> (r: Vec<CompressionMethod>)
    ensures
        r@ == sorted_methods(v@),
{
    let mut first: Vec<CompressionMethod> = Vec::new();
    let mut second: Vec<CompressionMethod> = Vec::new();
    let mut i: usize = 0;
    while i < v.len()
        invariant
            i <= v@.len(),
            first@ == v@.take(i as int).filter(|m: CompressionMethod| m == CompressionMethod::Brotli),
            second@ == v@.take(i as int).filter(|m: CompressionMethod| m == CompressionMethod::Gzip),
        decreases v@.len() - i,
    {
        proof {
            reveal_with_fuel(Seq::<_>::filter, 1);
            assert(v@.take(i + 1).drop_last() =~= v@.take(i as int));
        }
        let m = v[i];
        match m {
            CompressionMethod::Brotli => first.push(m),
            CompressionMethod::Gzip => second.push(m),
        }
        i = i + 1;
    }
    assert(v@.take(v@.len() as int) =~= v@);
    let mut j: usize = 0;
    let ghost f = first@;
    while j < second.len()
        invariant
            j <= second@.len(),
            first@ == f + second@.take(j as int),
        decreases second@.len() - j,
    {
        first.push(second[j]);
        assert(second@.take(j + 1) =~= second@.take(j as int).push(second@[j as int]));
        j = j + 1;
    }
    assert(second@.take(second@.len() as int) =~= second@);
    first
}

/// The methods this server can apply, in preference order.
pub fn enabled_methods() -> (r: Vec<CompressionMethod>)
    ensures
        r@ == seq![CompressionMethod::Brotli, CompressionMethod::Gzip],
{
    let v = vec![CompressionMethod::Gzip, CompressionMethod::Brotli];
    let r = sort_methods(&v);
    proof {
        let s = v@;
        reveal_with_fuel(Seq::<_>::filter, 3);
        assert(s.drop_last() =~= seq![CompressionMethod::Gzip]);
        assert(s.drop_last().drop_last() =~= Seq::<CompressionMethod>::empty());
        assert(sorted_methods(s) =~= seq![CompressionMethod::Brotli, CompressionMethod::Gzip]);
    }
    r
}

/// `accepted` contains `m`.
pub fn contains_method(accepted: &Vec<CompressionMethod>, m: CompressionMethod) -> (b: bool)
    ensures
        b == accepted@.contains(m),
{
    let mut i: usize = 0;
    while i < accepted.len()
        invariant
            i <= accepted@.len(),
            forall|k: int| 0 <= k < i ==> accepted@[k] != m,
        decreases accepted@.len() - i,
    {
        if accepted[i] == m {
            assert(accepted@[i as int] == m);
            return true;
        }
        i = i + 1;
    }
    false
}

/// The first method of `order` that `accepted` contains.
pub fn pick_method(order: &Vec<CompressionMethod>, accepted: &Vec<CompressionMethod>) -> (r: Option<
    CompressionMethod,
>)
    ensures
        r == first_accepted(order@, accepted@),
{
    let mut i: usize = 0;
    assert(order@.skip(0) =~= order@);
    while i < order.len()
        invariant
            i <= order@.len(),
            first_accepted(order@, accepted@) == first_accepted(order@.skip(i as int), accepted@),
        decreases order@.len() - i,
    {
        let m = order[i];
        assert(order@.skip(i as int)[0] == m);
        assert(order@.skip(i as int).drop_first() =~= order@.skip(i + 1));
        if contains_method(accepted, m) {
            return Some(m);
        }
        i = i + 1;
    }
    None
}

/// The methods an `Accept-Encoding` value lists, in order.
pub fn parse_accept_encoding(value: &str) -> (r: Vec<CompressionMethod>)
    ensures
        r@ == accepted_methods(value@),
{
    let s = chars_of(value);
    let comma = chars_of(",");
    proof {
        reveal_strlit(",");
    }
    let pieces = split_exec(&s, &comma);
    let ghost ps = split(s@, comma@);
    let mut r: Vec<CompressionMethod> = Vec::new();
    let mut i: usize = 0;
    while i < pieces.len()
        invariant
            i <= pieces@.len(),
            pieces@.len() == ps.len(),
            ps == split(s@, comma@),
            forall|k: int|
                0 <= k < pieces@.len() ==> {
                    &&& (#[trigger] pieces@[k]).0 <= pieces@[k].1 <= s@.len()
                    &&& ps[k] == s@.subrange(pieces@[k].0 as int, pieces@[k].1 as int)
                },
            r@ == methods_named(ps.take(i as int)),
        decreases pieces@.len() - i,
    {
        let (a, b) = pieces[i];
        let (x, y) = trim_range(&s, a, b);
        let found = CompressionMethod::from_chars(&s, x, y);
        assert(ps.take(i + 1).drop_last() =~= ps.take(i as int));
        match found {
            Some(m) => r.push(m),
            None => {},
        }
        i = i + 1;
    }
    assert(ps.take(ps.len() as int) =~= ps);
    r
}

} // verus!
