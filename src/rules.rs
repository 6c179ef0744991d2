//! The substitution rules, each stated as a rewrite of one line.
//!
//! A rule never looks past the end of a line: the character in front of an
//! emphasis marker must stand on the same line, so markup at the very start
//! of a line is left as it is.
use vstd::prelude::*;
use crate::text::{push_range, push_str};

verus! {

/// One substitution of the pipeline.
#[derive(Clone, Copy, Debug, PartialEq, Eq, Structural)]
pub enum Rule {
    /// `#`, repeated the level's number of times, then one space: the rest of
    /// the line becomes a heading of that level.
    Heading(u8),
    /// A character other than `\`, then `**`, text, `**`: strong text.
    Strong,
    /// A character other than `\`, `*` or `+`, then `*`, text, `*`: emphasis.
    Emphasis,
    /// An empty line becomes a line break.
    BlankLine,
}

impl Rule {
    /// Heading levels are those of HTML, one to six.
    pub open spec fn wf(self) -> bool {
        match self {
            Rule::Heading(n) => 1 <= n <= 6,
            _ => true,
        }
    }
}

/// The digit that names heading level `n`.
pub open spec fn level_digit(n: u8) -> char {
    if n == 1 {
        '1'
    } else if n == 2 {
        '2'
    } else if n == 3 {
        '3'
    } else if n == 4 {
        '4'
    } else if n == 5 {
        '5'
    } else {
        '6'
    }
}

pub open spec fn heading_open(n: u8) -> Seq<char> {
    seq!['<', 'h', level_digit(n), '>']
}

pub open spec fn heading_close(n: u8) -> Seq<char> {
    seq!['<', '/', 'h', level_digit(n), '>']
}

/// `l` starts with exactly `n` hashes followed by a space.
pub open spec fn heading_matches(l: Seq<char>, n: int) -> bool {
    &&& l.len() > n
    &&& forall|i: int| 0 <= i < n ==> #[trigger] l[i] == '#'
    &&& l[n] == ' '
}

pub open spec fn heading_line(l: Seq<char>, n: u8) -> Seq<char> {
    if heading_matches(l, n as int) {
        heading_open(n) + l.subrange(n as int + 1, l.len() as int) + heading_close(n)
    } else {
        l
    }
}

/// A `**` starts at `q`.
pub open spec fn is_double_star(l: Seq<char>, q: int) -> bool {
    0 <= q && q + 1 < l.len() && l[q] == '*' && l[q + 1] == '*'
}

/// The largest `q` in `[lo, hi]` at which a `**` starts, or -1 if none does.
pub open spec fn last_double_star(l: Seq<char>, lo: int, hi: int) -> int
    decreases hi - lo + 1,
{
    if hi < lo {
        -1
    } else if is_double_star(l, hi) {
        hi
    } else {
        last_double_star(l, lo, hi - 1)
    }
}

/// A `*` stands at `q`.
pub open spec fn is_star(l: Seq<char>, q: int) -> bool {
    0 <= q < l.len() && l[q] == '*'
}

/// The largest `q` in `[lo, hi]` at which a `*` stands, or -1 if none does.
pub open spec fn last_star(l: Seq<char>, lo: int, hi: int) -> int
    decreases hi - lo + 1,
{
    if hi < lo {
        -1
    } else if is_star(l, hi) {
        hi
    } else {
        last_star(l, lo, hi - 1)
    }
}

pub proof fn lemma_last_double_star_range(l: Seq<char>, lo: int, hi: int)
    ensures
        last_double_star(l, lo, hi) == -1 || (lo <= last_double_star(l, lo, hi) <= hi
            && is_double_star(l, last_double_star(l, lo, hi))),
        forall|q: int|
            lo <= q <= hi && last_double_star(l, lo, hi) < q ==> !is_double_star(l, q),
    decreases hi - lo + 1,
{
    if hi >= lo && !is_double_star(l, hi) {
        lemma_last_double_star_range(l, lo, hi - 1);
    }
}

pub proof fn lemma_last_star_range(l: Seq<char>, lo: int, hi: int)
    ensures
        last_star(l, lo, hi) == -1 || (lo <= last_star(l, lo, hi) <= hi && is_star(
            l,
            last_star(l, lo, hi),
        )),
        forall|q: int| lo <= q <= hi && last_star(l, lo, hi) < q ==> !is_star(l, q),
    decreases hi - lo + 1,
{
    if hi >= lo && !is_star(l, hi) {
        lemma_last_star_range(l, lo, hi - 1);
    }
}

/// A character other than `\` at `p`, then `**` right after it.
pub open spec fn strong_opens(l: Seq<char>, p: int) -> bool {
    0 <= p && p + 2 < l.len() && l[p] != '\\' && l[p + 1] == '*' && l[p + 2] == '*'
}

/// Where the closing `**` of strong text opened at `p` starts: the last one
/// that leaves at least one character of text (the text is matched greedily).
pub open spec fn strong_close(l: Seq<char>, p: int) -> int {
    last_double_star(l, p + 4, l.len() - 2)
}

/// Strong text is matched at `p`.
pub open spec fn strong_at(l: Seq<char>, p: int) -> bool {
    strong_opens(l, p) && strong_close(l, p) >= 0
}

/// The strong rule applied to `l` from position `pos` on: at each position,
/// from left to right, the first match is rewritten and the scan resumes
/// after its closing marker.
pub open spec fn strong_from(l: Seq<char>, pos: int) -> Seq<char>
    decreases l.len() - pos,
    via strong_from_decreases
{
    if pos < 0 || pos >= l.len() {
        Seq::<char>::empty()
    } else if strong_at(l, pos) {
        let q = strong_close(l, pos);
        seq![l[pos]] + "<strong>"@ + l.subrange(pos + 3, q) + "</strong>"@ + strong_from(l, q + 2)
    } else {
        seq![l[pos]] + strong_from(l, pos + 1)
    }
}

#[via_fn]
proof fn strong_from_decreases(l: Seq<char>, pos: int) {
    lemma_last_double_star_range(l, pos + 4, l.len() - 2);
}

/// A character other than `\`, `*` or `+` at `p`, then `*` right after it.
pub open spec fn em_opens(l: Seq<char>, p: int) -> bool {
    0 <= p && p + 1 < l.len() && l[p] != '\\' && l[p] != '*' && l[p] != '+' && l[p + 1] == '*'
}

/// Where the closing `*` of emphasis opened at `p` stands: the last one that
/// leaves at least one character of text.
pub open spec fn em_close(l: Seq<char>, p: int) -> int {
    last_star(l, p + 3, l.len() - 1)
}

/// Emphasis is matched at `p`.
pub open spec fn em_at(l: Seq<char>, p: int) -> bool {
    em_opens(l, p) && em_close(l, p) >= 0
}

/// The emphasis rule applied to `l` from position `pos` on.
pub open spec fn em_from(l: Seq<char>, pos: int) -> Seq<char>
    decreases l.len() - pos,
    via em_from_decreases
{
    if pos < 0 || pos >= l.len() {
        Seq::<char>::empty()
    } else if em_at(l, pos) {
        let q = em_close(l, pos);
        seq![l[pos]] + "<em>"@ + l.subrange(pos + 2, q) + "</em>"@ + em_from(l, q + 1)
    } else {
        seq![l[pos]] + em_from(l, pos + 1)
    }
}

#[via_fn]
proof fn em_from_decreases(l: Seq<char>, pos: int) {
    lemma_last_star_range(l, pos + 3, l.len() - 1);
}

/// What rule `r` makes of the line `l`.
pub open spec fn rule_line(r: Rule, l: Seq<char>) -> Seq<char> {
    match r {
        Rule::Heading(n) => heading_line(l, n),
        Rule::Strong => strong_from(l, 0),
        Rule::Emphasis => em_from(l, 0),
        Rule::BlankLine => if l.len() == 0 {
            "<br />"@
        } else {
            l
        },
    }
}

} // verus!

verus! {

fn level_char(n: u8) -> (c: char)
    requires
        1 <= n <= 6,
    ensures
        c == level_digit(n),
{
    if n == 1 {
        '1'
    } else if n == 2 {
        '2'
    } else if n == 3 {
        '3'
    } else if n == 4 {
        '4'
    } else if n == 5 {
        '5'
    } else {
        '6'
    }
}

/// The heading rule of level `n` on one line.
pub fn heading_rule(l: &Vec<char>, n: u8) -> (r: Vec<char>)
    requires
        1 <= n <= 6,
    ensures
        r@ == heading_line(l@, n),
{
    let len = l.len();
    let k = n as usize;
    let mut ok = len > k;
    let mut i: usize = 0;
    while ok && i < k
        invariant
            i <= k,
            len == l.len(),
            ok ==> len > k && forall|j: int| 0 <= j < i ==> l@[j] == '#',
            !ok ==> !heading_matches(l@, k as int),
        decreases k - i,
    {
        if l[i] != '#' {
            ok = false;
        }
        i += 1;
    }
    ok = ok && l[k] == ' ';
    let mut out: Vec<char> = Vec::new();
    if ok {
        let d = level_char(n);
        out.push('<');
        out.push('h');
        out.push(d);
        out.push('>');
        push_range(&mut out, l, k + 1, len);
        out.push('<');
        out.push('/');
        out.push('h');
        out.push(d);
        out.push('>');
        assert(out@ =~= heading_open(n) + l@.subrange(n as int + 1, l@.len() as int)
            + heading_close(n));
    } else {
        push_range(&mut out, l, 0, len);
        assert(l@.subrange(0, len as int) =~= l@);
    }
    out
}

/// The last start of a `**` in `[lo, hi_excl - 1]`.
fn find_last_double_star(l: &Vec<char>, lo: usize, hi_excl: usize) -> (r: Option<usize>)
    requires
        hi_excl < l.len(),
    ensures
        match r {
            None => last_double_star(l@, lo as int, hi_excl - 1) == -1,
            Some(q) => q == last_double_star(l@, lo as int, hi_excl - 1),
        },
{
    let mut j: usize = hi_excl;
    while j > lo
        invariant
            j <= hi_excl < l.len(),
            last_double_star(l@, lo as int, hi_excl - 1) == last_double_star(
                l@,
                lo as int,
                j - 1,
            ),
        decreases j,
    {
        if l[j - 1] == '*' && l[j] == '*' {
            return Some(j - 1);
        }
        j -= 1;
    }
    None
}

/// The last `*` in `[lo, hi_excl - 1]`.
fn find_last_star(l: &Vec<char>, lo: usize, hi_excl: usize) -> (r: Option<usize>)
    requires
        hi_excl <= l.len(),
    ensures
        match r {
            None => last_star(l@, lo as int, hi_excl - 1) == -1,
            Some(q) => q == last_star(l@, lo as int, hi_excl - 1),
        },
{
    let mut j: usize = hi_excl;
    while j > lo
        invariant
            j <= hi_excl <= l.len(),
            last_star(l@, lo as int, hi_excl - 1) == last_star(l@, lo as int, j - 1),
        decreases j,
    {
        if l[j - 1] == '*' {
            return Some(j - 1);
        }
        j -= 1;
    }
    None
}

/// The strong rule on one line.
pub fn strong_rule(l: &Vec<char>) -> (r: Vec<char>)
    ensures
        r@ == strong_from(l@, 0),
{
    let len = l.len();
    let mut out: Vec<char> = Vec::new();
    let mut pos: usize = 0;
    while pos < len
        invariant
            pos <= len == l.len(),
            out@ + strong_from(l@, pos as int) == strong_from(l@, 0),
        decreases len - pos,
    {
        let mut found: Option<usize> = None;
        if len - pos >= 6 && l[pos] != '\\' && l[pos + 1] == '*' && l[pos + 2] == '*' {
            found = find_last_double_star(l, pos + 4, len - 1);
        }
        proof {
            lemma_last_double_star_range(l@, pos + 4, len - 2);
        }
        let ghost before = out@;
        match found {
            Some(q) => {
                assert(strong_at(l@, pos as int) && q == strong_close(l@, pos as int));
                out.push(l[pos]);
                push_str(&mut out, "<strong>");
                push_range(&mut out, l, pos + 3, q);
                push_str(&mut out, "</strong>");
                assert(out@ + strong_from(l@, q + 2) =~= before + strong_from(l@, pos as int));
                pos = q + 2;
            },
            None => {
                assert(!strong_at(l@, pos as int));
                out.push(l[pos]);
                assert(out@ + strong_from(l@, pos + 1) =~= before + strong_from(l@, pos as int));
                pos += 1;
            },
        }
    }
    assert(out@ =~= out@ + strong_from(l@, pos as int));
    out
}

/// The emphasis rule on one line.
pub fn em_rule(l: &Vec<char>) -> (r: Vec<char>)
    ensures
        r@ == em_from(l@, 0),
{
    let len = l.len();
    let mut out: Vec<char> = Vec::new();
    let mut pos: usize = 0;
    while pos < len
        invariant
            pos <= len == l.len(),
            out@ + em_from(l@, pos as int) == em_from(l@, 0),
        decreases len - pos,
    {
        let mut found: Option<usize> = None;
        let c = l[pos];
        if len - pos >= 4 && c != '\\' && c != '*' && c != '+' && l[pos + 1] == '*' {
            found = find_last_star(l, pos + 3, len);
        }
        proof {
            lemma_last_star_range(l@, pos + 3, len - 1);
        }
        let ghost before = out@;
        match found {
            Some(q) => {
                assert(em_at(l@, pos as int) && q == em_close(l@, pos as int));
                out.push(c);
                push_str(&mut out, "<em>");
                push_range(&mut out, l, pos + 2, q);
                push_str(&mut out, "</em>");
                assert(out@ + em_from(l@, q + 1) =~= before + em_from(l@, pos as int));
                pos = q + 1;
            },
            None => {
                assert(!em_at(l@, pos as int));
                out.push(c);
                assert(out@ + em_from(l@, pos + 1) =~= before + em_from(l@, pos as int));
                pos += 1;
            },
        }
    }
    assert(out@ =~= out@ + em_from(l@, pos as int));
    out
}

/// Applies rule `r` to the line `l`.
pub fn apply_rule(r: Rule, l: &Vec<char>) -> (out: Vec<char>)
    requires
        r.wf(),
    ensures
        out@ == rule_line(r, l@),
{
    match r {
        Rule::Heading(n) => heading_rule(l, n),
        Rule::Strong => strong_rule(l),
        Rule::Emphasis => em_rule(l),
        Rule::BlankLine => {
            let mut out: Vec<char> = Vec::new();
            if l.len() == 0 {
                push_str(&mut out, "<br />");
            } else {
                push_range(&mut out, l, 0, l.len());
                assert(l@.subrange(0, l@.len() as int) =~= l@);
            }
            out
        },
    }
}

} // verus!
