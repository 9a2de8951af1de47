//! The brute-force strategy: every label of each length in a range, over the
//! character pool, that does not start with a hyphen.
use vstd::prelude::*;
use vstd::arithmetic::div_mod::lemma_fundamental_div_mod_converse;
use crate::text::{chars_of, text_of};

verus! {

/// Longest label length whose candidates can be counted in a `u64`.
pub const MAX_LENGTH: usize = 12;

/// The character pool: lowercase letters, digits, then the hyphen.
pub open spec fn pool() -> Seq<char> {
    "abcdefghijklmnopqrstuvwxyz0123456789-"@
}

pub open spec fn pow37(k: nat) -> nat
    decreases k,
{
    if k == 0 {
        1
    } else {
        37 * pow37((k - 1) as nat)
    }
}

/// How many labels of length `k` (at least 1) do not start with a hyphen.
pub open spec fn count(k: nat) -> nat {
    36 * pow37((k - 1) as nat)
}

/// How many candidates lengths `a` to `b` give together.
pub open spec fn total(a: nat, b: nat) -> nat
    decreases b + 1 - a,
{
    if a > b || a == 0 {
        0
    } else {
        count(a) + total(a + 1, b)
    }
}

/// The label of length `k` whose pool indices, read as base-37 digits with the
/// first character most significant, spell `i`.
pub open spec fn word(k: nat, i: nat) -> Seq<char>
    decreases k,
{
    if k == 0 {
        seq![]
    } else {
        word((k - 1) as nat, i / 37).push(pool()[(i % 37) as int])
    }
}

/// A label of length `k` over the pool that does not start with a hyphen.
pub open spec fn valid_label(w: Seq<char>, k: nat) -> bool {
    &&& w.len() == k
    &&& k >= 1
    &&& w[0] != '-'
    &&& forall|j: int| 0 <= j < w.len() ==> pool().contains(#[trigger] w[j])
}

proof fn lemma_pool()
    ensures
        pool().len() == 37,
        pool()[36] == '-',
        forall|j: int| 0 <= j < 36 ==> pool()[j] != '-',
        forall|a: int, b: int| 0 <= a < b < 37 ==> pool()[a] != pool()[b],
{
    reveal_strlit("abcdefghijklmnopqrstuvwxyz0123456789-");
}

pub open spec fn pool_index(c: char) -> int {
    choose|j: int| 0 <= j < 37 && pool()[j] == c
}

/// The number that a label over the pool spells in base 37.
pub open spec fn value(w: Seq<char>) -> nat
    decreases w.len(),
{
    if w.len() == 0 {
        0
    } else {
        value(w.drop_last()) * 37 + pool_index(w.last()) as nat
    }
}

proof fn lemma_pow37_positive(k: nat)
    ensures
        pow37(k) >= 1,
    decreases k,
{
    if k > 0 {
        lemma_pow37_positive((k - 1) as nat);
    }
}

proof fn lemma_word_len(k: nat, i: nat)
    ensures
        word(k, i).len() == k,
        forall|j: int| 0 <= j < k ==> pool().contains(#[trigger] word(k, i)[j]),
    decreases k,
{
    lemma_pool();
    if k > 0 {
        lemma_word_len((k - 1) as nat, i / 37);
        let w = word(k, i);
        assert forall|j: int| 0 <= j < k implies pool().contains(#[trigger] w[j]) by {
            if j == k - 1 {
                assert(pool()[(i % 37) as int] == w[j]);
            } else {
                assert(w[j] == word((k - 1) as nat, i / 37)[j]);
            }
        }
    }
}

proof fn lemma_word_first(k: nat, i: nat)
    requires
        k >= 1,
        i < count(k),
    ensures
        word(k, i)[0] != '-',
    decreases k,
{
    lemma_pool();
    lemma_word_len(k, i);
    if k == 1 {
        assert(pow37(0) == 1);
        assert(i % 37 == i);
    } else {
        let p = pow37((k - 2) as nat);
        assert(pow37((k - 1) as nat) == 37 * p);
        assert(i / 37 < 36 * p) by (nonlinear_arith)
            requires
                i < 36 * (37 * p),
        ;
        lemma_word_first((k - 1) as nat, i / 37);
        lemma_word_len((k - 1) as nat, i / 37);
        assert(word(k, i)[0] == word((k - 1) as nat, i / 37)[0]);
    }
}

proof fn lemma_value_of_word(k: nat, i: nat)
    requires
        i < pow37(k),
    ensures
        value(word(k, i)) == i,
    decreases k,
{
    lemma_pool();
    if k == 0 {
    } else {
        let w = word(k, i);
        lemma_word_len(k, i);
        assert(w.drop_last() =~= word((k - 1) as nat, i / 37));
        let p = pow37((k - 1) as nat);
        assert(i / 37 < p) by (nonlinear_arith)
            requires
                i < 37 * p,
        ;
        lemma_value_of_word((k - 1) as nat, i / 37);
        let d = (i % 37) as int;
        assert(pool_index(w.last()) == d);
        assert(i == (i / 37) * 37 + i % 37) by (nonlinear_arith);
    }
}

proof fn lemma_word_of_value(w: Seq<char>)
    requires
        forall|j: int| 0 <= j < w.len() ==> pool().contains(#[trigger] w[j]),
    ensures
        word(w.len(), value(w)) == w,
        value(w) < pow37(w.len()),
        w.len() >= 1 && w[0] != '-' ==> value(w) < count(w.len()),
    decreases w.len(),
{
    lemma_pool();
    if w.len() > 0 {
        let u = w.drop_last();
        assert forall|j: int| 0 <= j < u.len() implies pool().contains(#[trigger] u[j]) by {
            assert(u[j] == w[j]);
        }
        lemma_word_of_value(u);
        let c = w.last();
        assert(pool().contains(w[w.len() - 1]));
        let d = pool_index(c);
        assert(0 <= d < 37 && pool()[d] == c);
        let v = value(w);
        let q = value(u);
        lemma_fundamental_div_mod_converse(v as int, 37, q as int, d);
        assert(word(w.len(), v) =~= w);
        let p = pow37(u.len());
        assert(v < 37 * p) by (nonlinear_arith)
            requires
                v == q * 37 + d,
                q < p,
                d < 37,
        ;
        if w[0] != '-' {
            if u.len() == 0 {
                assert(c == w[0]);
                assert(d != 36);
                assert(pow37(0) == 1);
            } else {
                assert(u[0] == w[0]);
                let pp = pow37((u.len() - 1) as nat);
                assert(p == 37 * pp);
                assert(v < 36 * p) by (nonlinear_arith)
                    requires
                        v == q * 37 + d,
                        q < 36 * pp,
                        d < 37,
                        p == 37 * pp,
                ;
            }
        }
    }
}

/// The candidates of one length are exactly the labels of that length over
/// the pool that do not start with a hyphen, each once: there are
/// `37^k - 37^(k-1)` of them.
pub proof fn lemma_length_candidates(k: nat)
    requires
        k >= 1,
    ensures
        count(k) == pow37(k) - pow37((k - 1) as nat),
        forall|i: nat| i < count(k) ==> valid_label(#[trigger] word(k, i), k),
        forall|i: nat, j: nat|
            i < count(k) && j < count(k) && i != j ==> #[trigger] word(k, i) != #[trigger] word(k, j),
        forall|w: Seq<char>|
            #[trigger] valid_label(w, k) ==> exists|i: nat| i < count(k) && word(k, i) == w,
{
    assert forall|i: nat| i < count(k) implies valid_label(#[trigger] word(k, i), k) by {
        lemma_word_len(k, i);
        lemma_word_first(k, i);
    }
    assert forall|i: nat, j: nat|
        i < count(k) && j < count(k) && i != j implies #[trigger] word(k, i) != #[trigger] word(k, j) by {
        assert(pow37(k) == 37 * pow37((k - 1) as nat));
        lemma_value_of_word(k, i);
        lemma_value_of_word(k, j);
    }
    assert forall|w: Seq<char>| #[trigger] valid_label(w, k) implies exists|i: nat|
        i < count(k) && word(k, i) == w by {
        lemma_word_of_value(w);
    }
}

proof fn lemma_total(lo: nat, hi: nat)
    requires
        lo >= 1,
    ensures
        total(lo, hi) == pow_diff_sum(lo, hi),
    decreases hi + 1 - lo,
{
    if lo <= hi {
        lemma_total(lo + 1, hi);
    }
}

/// `sum for k in a..=b of (37^k - 37^(k-1))`.
pub open spec fn pow_diff_sum(a: nat, b: nat) -> int
    decreases b + 1 - a,
{
    if a > b || a == 0 {
        0
    } else {
        (pow37(a) - pow37((a - 1) as nat)) + pow_diff_sum(a + 1, b)
    }
}

proof fn lemma_count_grows(a: nat, b: nat)
    requires
        1 <= a <= b,
    ensures
        count(a) <= count(b),
    decreases b - a,
{
    if a < b {
        lemma_count_grows(a, (b - 1) as nat);
        assert(pow37((b - 1) as nat) == 37 * pow37((b - 2) as nat));
    }
}

proof fn lemma_count_fits(k: nat)
    requires
        1 <= k <= MAX_LENGTH,
    ensures
        count(k) <= 6405034384060574868,
        count(k) >= 36,
{
    lemma_count_grows(k, 12);
    reveal_with_fuel(pow37, 12);
    assert(count(12) == 6405034384060574868);
    lemma_pow37_positive((k - 1) as nat);
}

fn count_of(k: usize) -> (r: u64)
    requires
        1 <= k <= MAX_LENGTH,
    ensures
        r == count(k as nat),
{
    let mut c: u64 = 36;
    let mut j: usize = 1;
    while j < k
        invariant
            1 <= j <= k <= MAX_LENGTH,
            c == count(j as nat),
        decreases k - j,
    {
        proof {
            lemma_count_fits((j + 1) as nat);
        }
        c = c * 37;
        j = j + 1;
    }
    c
}

fn word_chars(letters: &Vec<char>, k: usize, i: u64) -> (r: Vec<char>)
    requires
        letters@ == pool(),
    ensures
        r@ == word(k as nat, i as nat),
    decreases k,
{
    proof {
        lemma_pool();
    }
    if k == 0 {
        Vec::new()
    } else {
        let mut r = word_chars(letters, k - 1, i / 37);
        r.push(letters[(i % 37) as usize]);
        r
    }
}

/// The candidates of length `k`, in order.
pub open spec fn block(k: nat) -> Seq<Seq<char>> {
    Seq::new(count(k), |i: int| word(k, i as nat))
}

/// Everything the brute-force strategy yields for lengths `a` to `b`, in order.
pub open spec fn stream(a: nat, b: nat) -> Seq<Seq<char>>
    decreases b + 1 - a,
{
    if a > b || a == 0 {
        seq![]
    } else {
        block(a) + stream(a + 1, b)
    }
}

/// Over lengths `lo` to `hi`, the brute-force strategy yields
/// `sum over k of (37^k - 37^(k-1))` candidates; each is a label of a length
/// in the range that does not start with a hyphen, and none comes twice.
pub proof fn lemma_stream(lo: nat, hi: nat)
    requires
        lo >= 1,
    ensures
        stream(lo, hi).len() == total(lo, hi),
        stream(lo, hi).len() == pow_diff_sum(lo, hi),
        forall|i: int|
            0 <= i < stream(lo, hi).len() ==> lo <= (#[trigger] stream(lo, hi)[i]).len() <= hi
                && valid_label(stream(lo, hi)[i], stream(lo, hi)[i].len()),
        forall|i: int, j: int|
            0 <= i < j < stream(lo, hi).len() ==> #[trigger] stream(lo, hi)[i] != #[trigger] stream(
                lo,
                hi,
            )[j],
    decreases hi + 1 - lo,
{
    lemma_total(lo, hi);
    if lo <= hi {
        lemma_stream(lo + 1, hi);
        lemma_length_candidates(lo);
        let b = block(lo);
        let t = stream(lo + 1, hi);
        let s = stream(lo, hi);
        assert(s == b + t);
        assert forall|i: int| 0 <= i < s.len() implies lo <= (#[trigger] s[i]).len() <= hi
            && valid_label(s[i], s[i].len()) by {
            if i < b.len() {
                assert(s[i] == word(lo, i as nat));
                assert(valid_label(word(lo, i as nat), lo));
            } else {
                assert(s[i] == t[i - b.len()]);
            }
        }
        assert forall|i: int, j: int| 0 <= i < j < s.len() implies #[trigger] s[i] != #[trigger] s[j] by {
            if j < b.len() {
                assert(s[i] == word(lo, i as nat) && s[j] == word(lo, j as nat));
            } else if i < b.len() {
                assert(s[i] == word(lo, i as nat));
                assert(valid_label(word(lo, i as nat), lo));
                assert(s[j] == t[j - b.len()]);
                assert(lo + 1 <= t[j - b.len()].len());
            } else {
                assert(s[i] == t[i - b.len()] && s[j] == t[j - b.len()]);
            }
        }
    }
}

/// The brute-force candidate stream: lengths from the lower bound up, and in
/// each length the labels in order of their pool indices, without those that
/// start with a hyphen. Candidates are made one at a time.
pub struct EnumBuilder {
    /// The longest length.
    pub hi: usize,
    /// The length of the candidate being made.
    pub len: usize,
    /// How many candidates of that length were made.
    pub idx: u64,
}

impl EnumBuilder {
    pub open spec fn wf(&self) -> bool {
        &&& 1 <= self.len <= self.hi + 1
        &&& self.hi <= MAX_LENGTH
        &&& self.len <= self.hi ==> self.idx <= count(self.len as nat)
        &&& self.len > self.hi ==> self.idx == 0
    }

    /// The candidates still to come, in order.
    pub open spec fn rest(&self) -> Seq<Seq<char>> {
        if self.len > self.hi {
            seq![]
        } else {
            block(self.len as nat).subrange(self.idx as int, count(self.len as nat) as int) + stream(
                self.len as nat + 1,
                self.hi as nat,
            )
        }
    }

    /// A stream over the lengths `lo` to `hi`, both included.
    pub fn new(lo: usize, hi: usize) -> (r: Self)
        requires
            1 <= lo <= hi <= MAX_LENGTH,
        ensures
            r.wf(),
            r.rest() == stream(lo as nat, hi as nat),
    {
        proof {
            lemma_count_fits(lo as nat);
            assert(block(lo as nat).subrange(0, count(lo as nat) as int) =~= block(lo as nat));
        }
        EnumBuilder { hi, len: lo, idx: 0 }
    }

    /// The next candidate, or `None` once the stream is exhausted.
    pub fn next_candidate(&mut self) -> (r: Option<String>)
        requires
            old(self).wf(),
        ensures
            final(self).wf(),
            final(self).hi == old(self).hi,
            old(self).rest().len() == 0 ==> r is None && final(self).rest().len() == 0,
            old(self).rest().len() > 0 ==> r is Some && r->0@ == old(self).rest()[0]
                && final(self).rest() == old(self).rest().drop_first(),
    {
        if self.len <= self.hi && self.idx == count_of(self.len) {
            let ghost before = self.rest();
            assert(block(self.len as nat).subrange(self.idx as int, self.idx as int) =~= Seq::<
                Seq<char>,
            >::empty());
            self.len = self.len + 1;
            self.idx = 0;
            proof {
                if self.len <= self.hi {
                    assert(block(self.len as nat).subrange(0, count(self.len as nat) as int)
                        =~= block(self.len as nat));
                }
                assert(self.rest() =~= before);
            }
            if self.len <= self.hi {
                proof {
                    lemma_count_fits(self.len as nat);
                }
            }
        }
        if self.len > self.hi {
            return None;
        }
        proof {
            lemma_count_fits(self.len as nat);
        }
        let letters = chars_of("abcdefghijklmnopqrstuvwxyz0123456789-");
        let w = word_chars(&letters, self.len, self.idx);
        let ghost before = self.rest();
        self.idx = self.idx + 1;
        assert(self.rest() =~= before.drop_first());
        Some(text_of(&w))
    }
}

} // verus!
