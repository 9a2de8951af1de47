//! Dictionary lines: splitting a line into literal and placeholder segments,
//! and expanding the placeholders into candidate labels.
use vstd::prelude::*;
use itertools::Itertools;
use crate::text::{
    chars_of, text_of, trim, trim_chars, strip_dots, strip_dots_chars, copy_range, split_on,
    char_views,
};

verus! {

/// The characters of each string, in order.
pub open spec fn views(v: Seq<String>) -> Seq<Seq<char>> {
    v.map_values(|s: String| s@)
}

/// State of the segment scanner after reading `s`: the closed segments, the
/// open buffer, and whether the buffer is a placeholder (begun by `%`).
pub open spec fn scan(s: Seq<char>) -> (Seq<Seq<char>>, Seq<char>, bool)
    decreases s.len(),
{
    if s.len() == 0 {
        (seq![], seq![], false)
    } else {
        let (segs, buf, inside) = scan(s.drop_last());
        let c = s.last();
        if c == '%' {
            if !inside {
                (if buf.len() > 0 { segs.push(buf) } else { segs }, seq!['%'], true)
            } else {
                (segs.push(buf.push('%')), seq![], false)
            }
        } else {
            (segs, buf.push(c), inside)
        }
    }
}

/// The segments of a line: the scanner's closed segments, then what is left
/// in its buffer, if anything.
pub open spec fn segments(s: Seq<char>) -> Seq<Seq<char>> {
    let (segs, buf, _) = scan(s);
    if buf.len() > 0 {
        segs.push(buf)
    } else {
        segs
    }
}

pub open spec fn number_pool() -> Seq<char> {
    "0123456789-"@
}

pub open spec fn alpha_pool() -> Seq<char> {
    "abcdefghijklmnopqrstuvwxyz-"@
}

pub open spec fn alphanumber_pool() -> Seq<char> {
    "0123456789abcdefghijklmnopqrstuvwxyz-"@
}

/// The characters a placeholder segment stands for; `None` for a segment
/// that is taken literally.
pub open spec fn class_pool(seg: Seq<char>) -> Option<Seq<char>> {
    if seg == "%NUMBER%"@ {
        Some(number_pool())
    } else if seg == "%ALPHA%"@ {
        Some(alpha_pool())
    } else if seg == "%ALPHANUMBER%"@ {
        Some(alphanumber_pool())
    } else {
        None
    }
}

/// Every candidate followed by every pool character, candidates outermost.
pub open spec fn product(acc: Seq<Seq<char>>, pool: Seq<char>) -> Seq<Seq<char>> {
    Seq::new(acc.len() * pool.len(), |n: int| acc[n / pool.len() as int].push(pool[n % pool.len() as int]))
}

/// One reduction step: a placeholder multiplies the candidates by its pool,
/// a literal is appended to each of them.
pub open spec fn step(acc: Seq<Seq<char>>, seg: Seq<char>) -> Seq<Seq<char>> {
    match class_pool(seg) {
        Some(pool) => product(acc, pool),
        None => acc.map_values(|a: Seq<char>| a + seg),
    }
}

/// The candidates after reducing the first `n` segments.
pub open spec fn expand_upto(segs: Seq<Seq<char>>, n: nat) -> Seq<Seq<char>>
    decreases n,
{
    if n == 0 {
        seq![seq![]]
    } else {
        step(expand_upto(segs, (n - 1) as nat), segs[n - 1])
    }
}

/// The candidates a sequence of segments denotes; none for no segments.
pub open spec fn expansion(segs: Seq<Seq<char>>) -> Seq<Seq<char>> {
    if segs.len() == 0 {
        seq![]
    } else {
        expand_upto(segs, segs.len())
    }
}

/// The candidates one trimmed dictionary line denotes.
pub open spec fn line_expansion(line: Seq<char>) -> Seq<Seq<char>> {
    expansion(segments(strip_dots(line)))
}

/// Relies on itertools' `cartesian_product`: all pairs, the first iterator
/// outermost; each pair is joined into one string.
#[verifier::external_body]
fn product_with(acc: &Vec<String>, pool: &Vec<char>) -> (r: Vec<String>)
    ensures
        views(r@) == product(views(acc@), pool@),
{
    acc.iter().cartesian_product(pool.iter()).map(|(a, c)| format!("{}{}", a, c)).collect()
}

fn same_chars(a: &Vec<char>, b: &Vec<char>) -> (r: bool)
    ensures
        r == (a@ == b@),
{
    if a.len() != b.len() {
        return false;
    }
    let mut i: usize = 0;
    while i < a.len()
        invariant
            a@.len() == b@.len(),
            i <= a@.len(),
            forall|k: int| 0 <= k < i ==> a@[k] == b@[k],
        decreases a@.len() - i,
    {
        if a[i] != b[i] {
            return false;
        }
        i = i + 1;
    }
    assert(a@ =~= b@);
    true
}

fn class_pool_of(seg: &Vec<char>) -> (r: Option<Vec<char>>)
    ensures
        match r {
            Some(p) => class_pool(seg@) == Some(p@),
            None => class_pool(seg@) is None,
        },
{
    if same_chars(seg, &chars_of("%NUMBER%")) {
        Some(chars_of("0123456789-"))
    } else if same_chars(seg, &chars_of("%ALPHA%")) {
        Some(chars_of("abcdefghijklmnopqrstuvwxyz-"))
    } else if same_chars(seg, &chars_of("%ALPHANUMBER%")) {
        Some(chars_of("0123456789abcdefghijklmnopqrstuvwxyz-"))
    } else {
        None
    }
}

fn append_each(acc: &Vec<String>, seg: &Vec<char>) -> (r: Vec<String>)
    ensures
        views(r@) == views(acc@).map_values(|a: Seq<char>| a + seg@),
{
    let tail = text_of(seg);
    let mut r: Vec<String> = Vec::new();
    let mut i: usize = 0;
    while i < acc.len()
        invariant
            i <= acc@.len(),
            tail@ == seg@,
            r@.len() == i,
            forall|k: int| 0 <= k < i ==> #[trigger] r@[k]@ == acc@[k]@ + seg@,
        decreases acc@.len() - i,
    {
        let t = acc[i].clone();
        r.push(t.concat(tail.as_str()));
        i = i + 1;
    }
    assert(views(r@) =~= views(acc@).map_values(|a: Seq<char>| a + seg@));
    r
}

fn expand_segments(segs: &Vec<Vec<char>>) -> (r: Vec<String>)
    ensures
        views(r@) == expansion(char_views(segs@)),
{
    let ghost sv = char_views(segs@);
    if segs.len() == 0 {
        assert(views(Seq::<String>::empty()) =~= Seq::<Seq<char>>::empty());
        return Vec::new();
    }
    let mut acc: Vec<String> = Vec::new();
    acc.push(String::new());
    assert(views(acc@) =~= expand_upto(sv, 0));
    let mut i: usize = 0;
    while i < segs.len()
        invariant
            i <= segs@.len(),
            sv == char_views(segs@),
            views(acc@) == expand_upto(sv, i as nat),
        decreases segs@.len() - i,
    {
        let seg = &segs[i];
        assert(sv[i as int] == seg@);
        acc = match class_pool_of(seg) {
            Some(pool) => product_with(&acc, &pool),
            None => append_each(&acc, seg),
        };
        i = i + 1;
    }
    acc
}

/// Splits a line into segments with the two-state scanner.
fn segments_of(line: &Vec<char>) -> (r: Vec<Vec<char>>)
    ensures
        char_views(r@) == segments(line@),
{
    let mut segs: Vec<Vec<char>> = Vec::new();
    let mut buf: Vec<char> = Vec::new();
    let mut inside = false;
    let mut i: usize = 0;
    assert(line@.subrange(0, 0) =~= Seq::<char>::empty());
    assert(char_views(segs@) =~= Seq::<Seq<char>>::empty());
    while i < line.len()
        invariant
            i <= line@.len(),
            scan(line@.subrange(0, i as int)) == (char_views(segs@), buf@, inside),
        decreases line@.len() - i,
    {
        let c = line[i];
        let ghost pre = line@.subrange(0, i as int);
        assert(line@.subrange(0, i + 1).drop_last() =~= pre);
        if c == '%' {
            if !inside {
                if buf.len() > 0 {
                    segs.push(buf);
                    assert(char_views(segs@) =~= scan(pre).0.push(scan(pre).1));
                }
                buf = Vec::new();
                buf.push('%');
                assert(buf@ =~= seq!['%']);
                inside = true;
            } else {
                buf.push('%');
                segs.push(buf);
                assert(char_views(segs@) =~= scan(pre).0.push(scan(pre).1.push('%')));
                buf = Vec::new();
                assert(buf@ =~= Seq::<char>::empty());
                inside = false;
            }
        } else {
            buf.push(c);
        }
        i = i + 1;
    }
    assert(line@.subrange(0, i as int) =~= line@);
    if buf.len() > 0 {
        let ghost before = char_views(segs@);
        segs.push(buf);
        assert(char_views(segs@) =~= before.push(scan(line@).1));
    }
    segs
}

/// The candidates that a trimmed dictionary line contributes: none for an
/// empty line or a comment, else the expansion of the line without its
/// trailing dots.
pub open spec fn line_candidates(line: Seq<char>) -> Seq<Seq<char>> {
    if line.len() == 0 || line[0] == '#' {
        seq![]
    } else {
        line_expansion(line)
    }
}

/// The candidates of a sequence of lines, line after line.
pub open spec fn lines_candidates(ls: Seq<Seq<char>>) -> Seq<Seq<char>>
    decreases ls.len(),
{
    if ls.len() == 0 {
        seq![]
    } else {
        lines_candidates(ls.drop_last()) + line_candidates(trim(ls.last()))
    }
}

/// The candidates of a whole dictionary text.
pub open spec fn dictionary_candidates(text: Seq<char>) -> Seq<Seq<char>> {
    lines_candidates(split_on(text, '\n'))
}

fn extend_strings(out: &mut Vec<String>, more: &Vec<String>)
    ensures
        views(final(out)@) == views(old(out)@) + views(more@),
{
    let ghost before = out@;
    let mut j: usize = 0;
    while j < more.len()
        invariant
            j <= more@.len(),
            out@.len() == before.len() + j,
            forall|k: int| 0 <= k < before.len() ==> #[trigger] out@[k] == before[k],
            forall|k: int| 0 <= k < j ==> #[trigger] out@[before.len() + k]@ == more@[k]@,
        decreases more@.len() - j,
    {
        out.push(more[j].clone());
        j = j + 1;
    }
    assert forall|k: int| 0 <= k < out@.len() implies #[trigger] views(out@)[k] == (views(before) + views(more@))[k] by {
        if k >= before.len() {
            assert(out@[before.len() + (k - before.len())]@ == more@[k - before.len()]@);
        }
    }
    assert(views(out@) =~= views(before) + views(more@));
}

/// The dictionary strategy of candidate generation.
pub struct DictBuilder;

impl DictBuilder {
    /// Splits one dictionary line into literal and `%...%` placeholder segments.
    pub fn extract_line(line: &str) -> (r: Vec<String>)
        ensures
            views(r@) == segments(line@),
    {
        let segs = segments_of(&chars_of(line));
        let mut r: Vec<String> = Vec::new();
        let mut i: usize = 0;
        while i < segs.len()
            invariant
                i <= segs@.len(),
                r@.len() == i,
                forall|k: int| 0 <= k < i ==> #[trigger] r@[k]@ == segs@[k]@,
            decreases segs@.len() - i,
        {
            r.push(text_of(&segs[i]));
            i = i + 1;
        }
        assert(views(r@) =~= char_views(segs@));
        r
    }

    /// Expands one trimmed, non-comment dictionary line into its candidates.
    pub fn expand_line(line: &str) -> (r: Vec<String>)
        ensures
            views(r@) == line_expansion(line@),
    {
        Self::expand_chars(&chars_of(line))
    }

    fn expand_chars(line: &Vec<char>) -> (r: Vec<String>)
        ensures
            views(r@) == line_expansion(line@),
    {
        let item = strip_dots_chars(line);
        expand_segments(&segments_of(&item))
    }

    /// Every candidate of a dictionary text: each line is trimmed, empty lines
    /// and `#` comments are skipped, and the rest are expanded in order.
    pub fn candidates(content: &str) -> (r: Vec<String>)
        ensures
            views(r@) == dictionary_candidates(content@),
    {
        let cs = chars_of(content);
        let mut out: Vec<String> = Vec::new();
        let mut start: usize = 0;
        let mut i: usize = 0;
        assert(cs@.subrange(0, 0) =~= Seq::<char>::empty());
        assert(views(out@) =~= Seq::<Seq<char>>::empty());
        while i < cs.len()
            invariant
                start <= i <= cs@.len(),
                split_on(cs@.subrange(0, i as int), '\n').last() == cs@.subrange(start as int, i as int),
                split_on(cs@.subrange(0, i as int), '\n').len() >= 1,
                views(out@) == lines_candidates(split_on(cs@.subrange(0, i as int), '\n').drop_last()),
            decreases cs@.len() - i,
        {
            let ghost pre = cs@.subrange(0, i as int);
            assert(cs@.subrange(0, i + 1).drop_last() =~= pre);
            if cs[i] == '\n' {
                let line = copy_range(&cs, start, i);
                let t = trim_chars(&line);
                let ghost before = views(out@);
                if t.len() > 0 && t[0] != '#' {
                    let more = Self::expand_chars(&t);
                    extend_strings(&mut out, &more);
                } else {
                    assert(before + line_candidates(t@) =~= before);
                }
                let ghost np = split_on(cs@.subrange(0, i + 1), '\n');
                assert(np.drop_last() =~= split_on(pre, '\n'));
                start = i + 1;
            } else {
                let ghost p = split_on(pre, '\n');
                assert(split_on(cs@.subrange(0, i + 1), '\n').drop_last() =~= p.drop_last());
                assert(cs@.subrange(start as int, i + 1) =~= cs@.subrange(start as int, i as int).push(cs@[i as int]));
            }
            i = i + 1;
        }
        assert(cs@.subrange(0, i as int) =~= cs@);
        let line = copy_range(&cs, start, i);
        let t = trim_chars(&line);
        let ghost before = views(out@);
        if t.len() > 0 && t[0] != '#' {
            let more = Self::expand_chars(&t);
            extend_strings(&mut out, &more);
        } else {
            assert(before + line_candidates(t@) =~= before);
        }
        out
    }
}

/// A trailing dot on a dictionary line does not change what it expands to.
pub proof fn lemma_trailing_dot(line: Seq<char>)
    ensures
        line_expansion(line.push('.')) == line_expansion(line),
{
    assert(line.push('.').drop_last() =~= line);
}

/// The dictionary used when no dictionary file is given.
pub fn default_dictionary() -> &'static str {
    "www\nmail\napi\ndev\ntest\nstaging\nadmin\nblog\nshop\napp\nm\nmobile\nftp\nsmtp\npop\nimap\nwebmail\nvpn\nns1\nns2\ndns\ncdn\nstatic\nimg\nimages\nassets\nmedia\nportal\nlogin\nauth\nsso\ndocs\nhelp\nsupport\nstatus\ngit\ngitlab\njenkins\nci\nbeta\nalpha\ndemo\nold\nnew\nweb\nweb%NUMBER%\nwww%NUMBER%\napi%NUMBER%\nserver%NUMBER%\nnode%NUMBER%\nmx\nmx%NUMBER%\ndb\nmysql\nredis\ncache\nsearch\nmonitor\ngrafana\nkibana\nintranet\ninternal\noffice\nremote\nsecure\npay\nstore\n"
}

} // verus!
