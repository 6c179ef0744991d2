//! The rule set, the engine that runs it over a text, the title pre-pass, and
//! the HTML document that wraps the result.
use vstd::prelude::*;
use crate::rules::{Rule, apply_rule, rule_line};
use crate::text::{join_lines, push_range, push_str, split_lines, string_from_chars};

verus! {

/// An ordered list of rules, fixed once built.
pub struct RuleSet {
    rules: Vec<Rule>,
}

impl View for RuleSet {
    type V = Seq<Rule>;

    closed spec fn view(&self) -> Seq<Rule> {
        self.rules@
    }
}

/// The rules of the pipeline, in the order in which they run.
pub open spec fn standard_rules() -> Seq<Rule> {
    seq![
        Rule::Heading(1),
        Rule::Heading(2),
        Rule::Heading(3),
        Rule::Heading(4),
        Rule::Strong,
        Rule::Emphasis,
        Rule::BlankLine,
    ]
}

impl RuleSet {
    /// Every rule of the set is well formed.
    pub open spec fn wf(&self) -> bool {
        forall|i: int| 0 <= i < self@.len() ==> (#[trigger] self@[i]).wf()
    }

    /// The pipeline's rule set.
    pub fn standard() -> (r: RuleSet)
        ensures
            r@ == standard_rules(),
            r.wf(),
    {
        let rules = vec![
            Rule::Heading(1),
            Rule::Heading(2),
            Rule::Heading(3),
            Rule::Heading(4),
            Rule::Strong,
            Rule::Emphasis,
            Rule::BlankLine,
        ];
        let r = RuleSet { rules };
        assert(r@ =~= standard_rules());
        r
    }

    /// The number of rules.
    pub fn len(&self) -> (n: usize)
        ensures
            n == self@.len(),
    {
        self.rules.len()
    }
}

/// The line `l` after each of `rules` in turn, the first rule first.
pub open spec fn line_through(rules: Seq<Rule>, l: Seq<char>) -> Seq<char>
    decreases rules.len(),
{
    if rules.len() == 0 {
        l
    } else {
        rule_line(rules.last(), line_through(rules.drop_last(), l))
    }
}

/// The views of a list of character buffers.
pub open spec fn views(ls: Seq<Vec<char>>) -> Seq<Seq<char>> {
    ls.map_values(|v: Vec<char>| v@)
}

/// The text made of the lines `ls`, each run through `rules`.
pub open spec fn apply_lines(rules: Seq<Rule>, ls: Seq<Seq<char>>) -> Seq<char> {
    join_lines(ls.map_values(|l: Seq<char>| line_through(rules, l)))
}

/// The text `t` run through `rules`: each rule rewrites every line of the
/// output of the rule before it.
pub open spec fn apply_spec(rules: Seq<Rule>, t: Seq<char>) -> Seq<char> {
    apply_lines(rules, split_lines(t))
}

/// A title line: `!` and one space at its start.
pub open spec fn is_title_line(l: Seq<char>) -> bool {
    l.len() >= 2 && l[0] == '!' && l[1] == ' '
}

/// The index of the first title line of `ls` at or after `from`, or -1.
pub open spec fn first_title(ls: Seq<Seq<char>>, from: int) -> int
    decreases ls.len() - from,
{
    if from < 0 || from >= ls.len() {
        -1
    } else if is_title_line(ls[from]) {
        from
    } else {
        first_title(ls, from + 1)
    }
}

/// The title named by the first title line of the text `s`, if there is one.
pub open spec fn title_of(s: Seq<char>) -> Option<Seq<char>> {
    let ls = split_lines(s);
    let i = first_title(ls, 0);
    if i >= 0 {
        Some(ls[i].subrange(2, ls[i].len() as int))
    } else {
        None
    }
}

/// The lines of `s` with the text of its first title line taken out.
pub open spec fn body_lines(s: Seq<char>) -> Seq<Seq<char>> {
    let ls = split_lines(s);
    let i = first_title(ls, 0);
    if i >= 0 {
        ls.update(i, Seq::<char>::empty())
    } else {
        ls
    }
}

/// The title given to a document without a title line.
pub open spec fn default_title() -> Seq<char> {
    "Markdown Page"@
}

/// The HTML document made from the source text `s`.
pub open spec fn document(rules: Seq<Rule>, s: Seq<char>) -> Seq<char> {
    let title = match title_of(s) {
        Some(t) => t,
        None => default_title(),
    };
    "<!DOCTYPE html><html><head><title>"@ + title + "</title></head><body>"@ + apply_lines(
        rules,
        body_lines(s),
    ) + "</body></html>"@
}

/// The lines of `s`.
fn split_text(s: &str) -> (ls: Vec<Vec<char>>)
    ensures
        views(ls@) == split_lines(s@),
{
    let mut lines: Vec<Vec<char>> = Vec::new();
    let mut cur: Vec<char> = Vec::new();
    for c in it: s.chars()
        invariant
            it.seq() == s@,
            views(lines@).push(cur@) == split_lines(s@.subrange(0, it.index() as int)),
    {
        let ghost i = it.index() as int;
        let ghost before = split_lines(s@.subrange(0, i));
        assert(s@.subrange(0, i + 1).drop_last() =~= s@.subrange(0, i));
        if c == '\n' {
            let done = cur;
            lines.push(done);
            cur = Vec::new();
            assert(views(lines@).push(cur@) =~= before.push(Seq::<char>::empty()));
        } else {
            cur.push(c);
            assert(views(lines@).push(cur@) =~= before.update(
                before.len() - 1,
                before.last().push(c),
            ));
        }
    }
    assert(s@.subrange(0, s@.len() as int) =~= s@);
    lines.push(cur);
    assert(views(lines@) =~= split_lines(s@));
    lines
}

/// The line `l` run through every rule of `rules`.
fn run_line(rules: &RuleSet, l: &Vec<char>) -> (r: Vec<char>)
    requires
        rules.wf(),
    ensures
        r@ == line_through(rules@, l@),
{
    let mut cur: Vec<char> = Vec::new();
    push_range(&mut cur, l, 0, l.len());
    assert(l@.subrange(0, l@.len() as int) =~= l@);
    let n = rules.rules.len();
    let mut i: usize = 0;
    while i < n
        invariant
            rules.wf(),
            n == rules@.len(),
            i <= n,
            cur@ == line_through(rules@.subrange(0, i as int), l@),
        decreases n - i,
    {
        let r = rules.rules[i];
        assert(rules@[i as int].wf());
        cur = apply_rule(r, &cur);
        assert(rules@.subrange(0, i + 1).drop_last() =~= rules@.subrange(0, i as int));
        i += 1;
    }
    assert(rules@.subrange(0, n as int) =~= rules@);
    cur
}

/// Appends to `out` the lines of `ls`, each run through `rules`, one
/// separator between neighbours.
fn render_lines(rules: &RuleSet, ls: &Vec<Vec<char>>, out: &mut Vec<char>)
    requires
        rules.wf(),
    ensures
        final(out)@ == old(out)@ + apply_lines(rules@, views(ls@)),
{
    let ghost start = out@;
    let ghost f = |l: Seq<char>| line_through(rules@, l);
    let n = ls.len();
    let mut i: usize = 0;
    while i < n
        invariant
            rules.wf(),
            n == ls@.len(),
            i <= n,
            f == (|l: Seq<char>| line_through(rules@, l)),
            out@ == start + join_lines(views(ls@).subrange(0, i as int).map_values(f)),
        decreases n - i,
    {
        let line = run_line(rules, &ls[i]);
        let ghost done = views(ls@).subrange(0, i as int).map_values(f);
        let ghost next = views(ls@).subrange(0, i + 1).map_values(f);
        assert(next.drop_last() =~= done);
        assert(next.last() == line@);
        if i > 0 {
            out.push('\n');
        } else {
            assert(done.len() == 0);
        }
        push_range(out, &line, 0, line.len());
        assert(line@.subrange(0, line@.len() as int) =~= line@);
        assert(out@ =~= start + join_lines(next));
        i += 1;
    }
    assert(views(ls@).subrange(0, n as int) =~= views(ls@));
}

/// The index of the first title line of `ls`.
fn find_title(ls: &Vec<Vec<char>>) -> (r: Option<usize>)
    ensures
        match r {
            None => first_title(views(ls@), 0) == -1,
            Some(i) => i == first_title(views(ls@), 0) && i < ls@.len() && is_title_line(
                views(ls@)[i as int],
            ),
        },
{
    let n = ls.len();
    let mut i: usize = 0;
    while i < n
        invariant
            n == ls@.len(),
            i <= n,
            first_title(views(ls@), 0) == first_title(views(ls@), i as int),
        decreases n - i,
    {
        let l = &ls[i];
        assert(l@ == views(ls@)[i as int]);
        if l.len() >= 2 && l[0] == '!' && l[1] == ' ' {
            return Some(i);
        }
        i += 1;
    }
    None
}

/// The text `text` run through `rules`.
pub fn apply(text: &str, rules: &RuleSet) -> (r: String)
    requires
        rules.wf(),
    ensures
        r@ == apply_spec(rules@, text@),
{
    let ls = split_text(text);
    let mut out: Vec<char> = Vec::new();
    render_lines(rules, &ls, &mut out);
    string_from_chars(&out)
}

/// Takes the first title line out of `ls`, and returns its title.
fn take_title(ls: &mut Vec<Vec<char>>) -> (r: Option<Vec<char>>)
    ensures
        ({
            let i = first_title(views(old(ls)@), 0);
            &&& match r {
                Some(t) => i >= 0 && t@ == views(old(ls)@)[i].subrange(
                    2,
                    views(old(ls)@)[i].len() as int,
                ),
                None => i == -1,
            }
            &&& views(final(ls)@) == if i >= 0 {
                views(old(ls)@).update(i, Seq::<char>::empty())
            } else {
                views(old(ls)@)
            }
        }),
{
    match find_title(ls) {
        Some(i) => {
            let mut t: Vec<char> = Vec::new();
            push_range(&mut t, &ls[i], 2, ls[i].len());
            ls.set(i, Vec::new());
            assert(views(ls@) =~= views(old(ls)@).update(i as int, Seq::<char>::empty()));
            Some(t)
        },
        None => None,
    }
}

/// Splits the source text into its title, if it has a title line, and its
/// body: the text with the first title line's text taken out.
pub fn extract_title(source: &str) -> (r: (Option<String>, String))
    ensures
        match r.0 {
            Some(t) => title_of(source@) == Some(t@),
            None => title_of(source@) is None,
        },
        r.1@ == join_lines(body_lines(source@)),
{
    let mut ls = split_text(source);
    let t = take_title(&mut ls);
    let mut out: Vec<char> = Vec::new();
    let n = ls.len();
    let mut i: usize = 0;
    while i < n
        invariant
            n == ls@.len(),
            i <= n,
            out@ == join_lines(views(ls@).subrange(0, i as int)),
        decreases n - i,
    {
        let ghost next = views(ls@).subrange(0, i + 1);
        assert(next.drop_last() =~= views(ls@).subrange(0, i as int));
        if i > 0 {
            out.push('\n');
        }
        push_range(&mut out, &ls[i], 0, ls[i].len());
        assert(ls@[i as int]@.subrange(0, ls@[i as int]@.len() as int) =~= next.last());
        assert(out@ =~= join_lines(next));
        i += 1;
    }
    assert(views(ls@).subrange(0, n as int) =~= views(ls@));
    let title = match t {
        Some(v) => Some(string_from_chars(&v)),
        None => None,
    };
    (title, string_from_chars(&out))
}

/// The HTML document made from the source text: the title from its first
/// title line (or the default title), and the rest run through `rules`.
pub fn render_document(source: &str, rules: &RuleSet) -> (r: String)
    requires
        rules.wf(),
    ensures
        r@ == document(rules@, source@),
{
    let mut ls = split_text(source);
    let t = take_title(&mut ls);
    let mut out: Vec<char> = Vec::new();
    push_str(&mut out, "<!DOCTYPE html><html><head><title>");
    match &t {
        Some(v) => push_range(&mut out, v, 0, v.len()),
        None => push_str(&mut out, "Markdown Page"),
    }
    push_str(&mut out, "</title></head><body>");
    render_lines(rules, &ls, &mut out);
    push_str(&mut out, "</body></html>");
    proof {
        match t {
            Some(v) => {
                assert(v@.subrange(0, v@.len() as int) =~= v@);
            },
            None => {},
        }
    }
    assert(out@ =~= document(rules@, source@));
    string_from_chars(&out)
}

} // verus!
