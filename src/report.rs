//! The line that the sink writes for each result:
//! `domain - addresses - cnames - http_code - title`.
use vstd::prelude::*;
use crate::text::{chars_of, text_of};
use crate::pattern::views;
use crate::worker::ResolveResult;

verus! {

/// How `{:?}` writes a string: quoted, with escapes.
pub uninterp spec fn debug_text(s: Seq<char>) -> Seq<char>;

/// Relies on `str`'s `Debug` formatting (`{:?}`).
#[verifier::external_body]
fn quoted(s: &str) -> (r: String)
    ensures
        r@ == debug_text(s@),
{
    format!("{:?}", s)
}

/// The quoted strings, separated by `, `.
pub open spec fn joined(v: Seq<Seq<char>>) -> Seq<char>
    decreases v.len(),
{
    if v.len() == 0 {
        seq![]
    } else if v.len() == 1 {
        debug_text(v[0])
    } else {
        joined(v.drop_last()) + ", "@ + debug_text(v.last())
    }
}

/// A list of strings as `{:?}` writes it: `["a", "b"]`.
pub open spec fn list_text(v: Seq<Seq<char>>) -> Seq<char> {
    "["@ + joined(v) + "]"@
}

pub open spec fn decimal_digit(d: nat) -> char {
    "0123456789"@[d as int]
}

/// The decimal numeral of `n`, without leading zeros.
pub open spec fn decimal(n: nat) -> Seq<char>
    decreases n,
{
    if n < 10 {
        seq![decimal_digit(n)]
    } else {
        decimal(n / 10).push(decimal_digit(n % 10))
    }
}

fn decimal_chars(n: u64) -> (r: Vec<char>)
    ensures
        r@ == decimal(n as nat),
    decreases n,
{
    proof {
        reveal_strlit("0123456789");
    }
    let digits = chars_of("0123456789");
    if n < 10 {
        let mut r: Vec<char> = Vec::new();
        r.push(digits[n as usize]);
        assert(r@ =~= seq![decimal_digit(n as nat)]);
        r
    } else {
        let mut r = decimal_chars(n / 10);
        r.push(digits[(n % 10) as usize]);
        r
    }
}

fn list_line(v: &Vec<String>) -> (r: String)
    ensures
        r@ == list_text(views(v@)),
{
    let mut r = String::from_str("[");
    let mut i: usize = 0;
    while i < v.len()
        invariant
            i <= v@.len(),
            r@ == "["@ + joined(views(v@.subrange(0, i as int))),
        decreases v@.len() - i,
    {
        let ghost before = views(v@.subrange(0, i as int));
        let ghost after = views(v@.subrange(0, i + 1));
        assert(after.drop_last() =~= before);
        assert(after.last() == v@[i as int]@);
        if i > 0 {
            r = r.concat(", ");
        }
        r = r.concat(quoted(v[i].as_str()).as_str());
        i = i + 1;
        proof {
            if i == 1 {
                assert(before =~= Seq::<Seq<char>>::empty());
                assert(joined(before) =~= Seq::<char>::empty());
            }
        }
        assert(r@ =~= "["@ + joined(views(v@.subrange(0, i as int))));
    }
    assert(v@.subrange(0, i as int) =~= v@);
    r.concat("]")
}

/// The line written for a result; a missing status is written as 0 and a
/// missing title as an empty string.
pub open spec fn result_text(r: &ResolveResult) -> Seq<char> {
    r.domain@ + " - "@ + list_text(views(r.ip@)) + " - "@ + list_text(views(r.cname@)) + " - "@
        + decimal(
        match r.code {
            Some(c) => c as nat,
            None => 0,
        },
    ) + " - "@ + debug_text(
        match r.title {
            Some(t) => t@,
            None => Seq::<char>::empty(),
        },
    ) + "\n"@
}

pub fn result_line(r: &ResolveResult) -> (s: String)
    ensures
        s@ == result_text(r),
{
    let code: u16 = match r.code {
        Some(c) => c,
        None => 0,
    };
    let title = match &r.title {
        Some(t) => quoted(t.as_str()),
        None => {
            let e = String::new();
            quoted(e.as_str())
        },
    };
    let s = String::from_str(r.domain.as_str()).concat(" - ");
    let s = s.concat(list_line(&r.ip).as_str()).concat(" - ");
    let s = s.concat(list_line(&r.cname).as_str()).concat(" - ");
    let s = s.concat(text_of(&decimal_chars(code as u64)).as_str()).concat(" - ");
    s.concat(title.as_str()).concat("\n")
}

} // verus!
