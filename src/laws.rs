//! Properties of the pipeline as a whole, proved from the definitions of the
//! rules, the title pre-pass and the document.
use vstd::prelude::*;
use crate::pipeline::{
    apply_lines, apply_spec, body_lines, document, first_title, is_title_line, line_through, standard_rules,
    title_of,
};
use crate::rules::{
    Rule, em_at, em_close, em_from, heading_close, heading_line, heading_matches, heading_open,
    lemma_last_double_star_range, lemma_last_star_range, level_digit, rule_line, strong_at,
    strong_close, strong_from,
};
use crate::source::{ConversionError, admission, is_hidden};
use crate::text::{is_line, join_lines, lemma_split_join, lemma_split_lines_nonempty, split_lines};

verus! {

proof fn lemma_is_line_concat(a: Seq<char>, b: Seq<char>)
    requires
        is_line(a),
        is_line(b),
    ensures
        is_line(a + b),
{
    assert forall|i: int| 0 <= i < (a + b).len() implies !(#[trigger] (a + b)[i] == '\n') by {
        if i < a.len() {
            assert((a + b)[i] == a[i]);
        } else {
            assert((a + b)[i] == b[i - a.len()]);
        }
    }
}

proof fn lemma_is_line_subrange(a: Seq<char>, lo: int, hi: int)
    requires
        is_line(a),
        0 <= lo <= hi <= a.len(),
    ensures
        is_line(a.subrange(lo, hi)),
{
    assert forall|i: int| 0 <= i < hi - lo implies !(#[trigger] a.subrange(lo, hi)[i] == '\n') by {
        assert(a.subrange(lo, hi)[i] == a[lo + i]);
    }
}

proof fn lemma_tags_are_lines()
    ensures
        is_line("<strong>"@),
        is_line("</strong>"@),
        is_line("<em>"@),
        is_line("</em>"@),
        is_line("<br />"@),
        "<strong>"@.len() == 8,
        "</strong>"@.len() == 9,
        "<em>"@.len() == 4,
        "</em>"@.len() == 5,
        "<br />"@.len() == 6,
{
    reveal_strlit("<strong>");
    reveal_strlit("</strong>");
    reveal_strlit("<em>");
    reveal_strlit("</em>");
    reveal_strlit("<br />");
}

proof fn lemma_strong_from_line(l: Seq<char>, pos: int)
    requires
        is_line(l),
    ensures
        is_line(strong_from(l, pos)),
        0 <= pos <= l.len() ==> strong_from(l, pos).len() >= l.len() - pos,
    decreases l.len() - pos,
{
    lemma_tags_are_lines();
    if 0 <= pos < l.len() {
        let c = seq![l[pos]];
        assert(is_line(c)) by {
            assert(c[0] == l[pos]);
        }
        if strong_at(l, pos) {
            let q = strong_close(l, pos);
            lemma_last_double_star_range(l, pos + 4, l.len() - 2);
            lemma_strong_from_line(l, q + 2);
            lemma_is_line_subrange(l, pos + 3, q);
            lemma_is_line_concat(c, "<strong>"@);
            lemma_is_line_concat(c + "<strong>"@, l.subrange(pos + 3, q));
            lemma_is_line_concat(c + "<strong>"@ + l.subrange(pos + 3, q), "</strong>"@);
            lemma_is_line_concat(
                c + "<strong>"@ + l.subrange(pos + 3, q) + "</strong>"@,
                strong_from(l, q + 2),
            );
        } else {
            lemma_strong_from_line(l, pos + 1);
            lemma_is_line_concat(c, strong_from(l, pos + 1));
        }
    }
}

proof fn lemma_em_from_line(l: Seq<char>, pos: int)
    requires
        is_line(l),
    ensures
        is_line(em_from(l, pos)),
        0 <= pos <= l.len() ==> em_from(l, pos).len() >= l.len() - pos,
    decreases l.len() - pos,
{
    lemma_tags_are_lines();
    if 0 <= pos < l.len() {
        let c = seq![l[pos]];
        assert(is_line(c)) by {
            assert(c[0] == l[pos]);
        }
        if em_at(l, pos) {
            let q = em_close(l, pos);
            lemma_last_star_range(l, pos + 3, l.len() - 1);
            lemma_em_from_line(l, q + 1);
            lemma_is_line_subrange(l, pos + 2, q);
            lemma_is_line_concat(c, "<em>"@);
            lemma_is_line_concat(c + "<em>"@, l.subrange(pos + 2, q));
            lemma_is_line_concat(c + "<em>"@ + l.subrange(pos + 2, q), "</em>"@);
            lemma_is_line_concat(
                c + "<em>"@ + l.subrange(pos + 2, q) + "</em>"@,
                em_from(l, q + 1),
            );
        } else {
            lemma_em_from_line(l, pos + 1);
            lemma_is_line_concat(c, em_from(l, pos + 1));
        }
    }
}

/// A rule turns a line into a line, never shorter than it was.
pub proof fn lemma_rule_line(r: Rule, l: Seq<char>)
    requires
        r.wf(),
        is_line(l),
    ensures
        is_line(rule_line(r, l)),
        rule_line(r, l).len() >= l.len(),
{
    lemma_tags_are_lines();
    match r {
        Rule::Heading(n) => {
            let o = heading_open(n);
            let cl = heading_close(n);
            assert(is_line(o)) by {
                assert(o[0] == '<' && o[1] == 'h' && o[2] == level_digit(n) && o[3] == '>');
            }
            assert(is_line(cl)) by {
                assert(cl[0] == '<' && cl[1] == '/' && cl[2] == 'h' && cl[3] == level_digit(n)
                    && cl[4] == '>');
            }
            if l.len() > n as int {
                lemma_is_line_subrange(l, n as int + 1, l.len() as int);
                lemma_is_line_concat(o, l.subrange(n as int + 1, l.len() as int));
                lemma_is_line_concat(o + l.subrange(n as int + 1, l.len() as int), cl);
            }
        },
        Rule::Strong => lemma_strong_from_line(l, 0),
        Rule::Emphasis => lemma_em_from_line(l, 0),
        Rule::BlankLine => {},
    }
}

/// Running a line through well-formed rules gives a line, never shorter.
pub proof fn lemma_line_through(rules: Seq<Rule>, l: Seq<char>)
    requires
        forall|i: int| 0 <= i < rules.len() ==> (#[trigger] rules[i]).wf(),
        is_line(l),
    ensures
        is_line(line_through(rules, l)),
        line_through(rules, l).len() >= l.len(),
    decreases rules.len(),
{
    if rules.len() > 0 {
        let init = rules.drop_last();
        assert forall|i: int| 0 <= i < init.len() implies (#[trigger] init[i]).wf() by {
            assert(init[i] == rules[i]);
        }
        lemma_line_through(init, l);
        assert(rules[rules.len() - 1].wf());
        lemma_rule_line(rules.last(), line_through(init, l));
    }
}

proof fn lemma_standard_wf()
    ensures
        forall|i: int| 0 <= i < standard_rules().len() ==> (#[trigger] standard_rules()[i]).wf(),
{
}

/// Line `i` of the text made by `apply_lines` is line `i` of its input run
/// through the rules.
proof fn lemma_apply_lines_line(ls: Seq<Seq<char>>, i: int)
    requires
        ls.len() >= 1,
        0 <= i < ls.len(),
        forall|j: int| 0 <= j < ls.len() ==> is_line(#[trigger] ls[j]),
    ensures
        split_lines(apply_lines(standard_rules(), ls)).len() == ls.len(),
        split_lines(apply_lines(standard_rules(), ls))[i] == line_through(standard_rules(), ls[i]),
{
    let f = |l: Seq<char>| line_through(standard_rules(), l);
    let ms = ls.map_values(f);
    lemma_standard_wf();
    assert forall|j: int| 0 <= j < ms.len() implies is_line(#[trigger] ms[j]) by {
        lemma_line_through(standard_rules(), ls[j]);
    }
    lemma_split_join(ms);
}

/// The first title line is a title line, at an index in range.
proof fn lemma_first_title(ls: Seq<Seq<char>>, from: int)
    requires
        0 <= from,
    ensures
        first_title(ls, from) == -1 || (from <= first_title(ls, from) < ls.len() && is_title_line(
            ls[first_title(ls, from)],
        )),
    decreases ls.len() - from,
{
    if from < ls.len() && !is_title_line(ls[from]) {
        lemma_first_title(ls, from + 1);
    }
}

/// A line that is not a title line stands in the body as it stands in the text.
proof fn lemma_body_line(s: Seq<char>, i: int)
    requires
        0 <= i < split_lines(s).len(),
        !is_title_line(split_lines(s)[i]),
    ensures
        body_lines(s).len() == split_lines(s).len(),
        body_lines(s)[i] == split_lines(s)[i],
        forall|j: int| 0 <= j < body_lines(s).len() ==> is_line(#[trigger] body_lines(s)[j]),
{
    lemma_first_title(split_lines(s), 0);
    lemma_split_lines_nonempty(s);
    assert(is_line(Seq::<char>::empty()));
}

proof fn lemma_no_star_strong(l: Seq<char>, pos: int)
    requires
        0 <= pos <= l.len(),
        forall|j: int| 0 <= j < l.len() ==> #[trigger] l[j] != '*',
    ensures
        strong_from(l, pos) == l.subrange(pos, l.len() as int),
    decreases l.len() - pos,
{
    if pos < l.len() {
        lemma_no_star_strong(l, pos + 1);
        assert(seq![l[pos]] + l.subrange(pos + 1, l.len() as int) =~= l.subrange(
            pos,
            l.len() as int,
        ));
    } else {
        assert(l.subrange(pos, l.len() as int) =~= Seq::<char>::empty());
    }
}

proof fn lemma_no_star_em(l: Seq<char>, pos: int)
    requires
        0 <= pos <= l.len(),
        forall|j: int| 0 <= j < l.len() ==> #[trigger] l[j] != '*',
    ensures
        em_from(l, pos) == l.subrange(pos, l.len() as int),
    decreases l.len() - pos,
{
    if pos < l.len() {
        lemma_no_star_em(l, pos + 1);
        assert(seq![l[pos]] + l.subrange(pos + 1, l.len() as int) =~= l.subrange(
            pos,
            l.len() as int,
        ));
    } else {
        assert(l.subrange(pos, l.len() as int) =~= Seq::<char>::empty());
    }
}

/// The pipeline's rules on a heading line `#`^n, space, `h`, where `h` holds
/// no `*`: the line becomes a heading of level `n`, and only that.
proof fn lemma_heading_through(n: u8, h: Seq<char>)
    requires
        1 <= n <= 4,
        forall|j: int| 0 <= j < h.len() ==> #[trigger] h[j] != '*',
    ensures
        line_through(standard_rules(), Seq::new(n as nat, |j: int| '#') + seq![' '] + h)
            == heading_open(n) + h + heading_close(n),
{
    let l = Seq::new(n as nat, |j: int| '#') + seq![' '] + h;
    let out = heading_open(n) + h + heading_close(n);
    let rs = standard_rules();
    assert(l.subrange(n as int + 1, l.len() as int) =~= h);
    assert(heading_matches(l, n as int));
    assert forall|k: u8| 1 <= k <= 6 && k != n implies #[trigger] heading_line(l, k) == l by {
        if k < n {
            assert(l[k as int] == '#');
        } else {
            assert(l[n as int] == ' ');
        }
    }
    assert forall|k: u8| 1 <= k <= 6 implies #[trigger] heading_line(out, k) == out by {
        assert(out[0] == '<');
    }
    assert forall|j: int| 0 <= j < out.len() implies #[trigger] out[j] != '*' by {
        if j < 4 {
        } else if j < 4 + h.len() {
            assert(out[j] == h[j - 4]);
        } else {
        }
    }
    lemma_no_star_strong(out, 0);
    lemma_no_star_em(out, 0);
    assert(out.subrange(0, out.len() as int) =~= out);
    reveal_with_fuel(line_through, 8);
    assert(rs.drop_last().drop_last().drop_last().drop_last().drop_last().drop_last().drop_last()
        =~= Seq::<Rule>::empty());
    assert(rs.drop_last().drop_last().drop_last().drop_last().drop_last().drop_last() =~= seq![
        Rule::Heading(1),
    ]);
    assert(rs.drop_last().drop_last().drop_last().drop_last().drop_last() =~= seq![
        Rule::Heading(1),
        Rule::Heading(2),
    ]);
    assert(rs.drop_last().drop_last().drop_last().drop_last() =~= seq![
        Rule::Heading(1),
        Rule::Heading(2),
        Rule::Heading(3),
    ]);
    assert(rs.drop_last().drop_last().drop_last() =~= seq![
        Rule::Heading(1),
        Rule::Heading(2),
        Rule::Heading(3),
        Rule::Heading(4),
    ]);
    assert(rs.drop_last().drop_last() =~= seq![
        Rule::Heading(1),
        Rule::Heading(2),
        Rule::Heading(3),
        Rule::Heading(4),
        Rule::Strong,
    ]);
    assert(rs.drop_last() =~= seq![
        Rule::Heading(1),
        Rule::Heading(2),
        Rule::Heading(3),
        Rule::Heading(4),
        Rule::Strong,
        Rule::Emphasis,
    ]);
}

/// The pipeline's rules on an empty line.
proof fn lemma_blank_through()
    ensures
        line_through(standard_rules(), Seq::<char>::empty()) == "<br />"@,
{
    let e = Seq::<char>::empty();
    let rs = standard_rules();
    reveal_with_fuel(line_through, 8);
    assert(rs.drop_last().drop_last().drop_last().drop_last().drop_last().drop_last().drop_last()
        =~= Seq::<Rule>::empty());
    assert(rs.drop_last().drop_last().drop_last().drop_last().drop_last().drop_last() =~= seq![
        Rule::Heading(1),
    ]);
    assert(rs.drop_last().drop_last().drop_last().drop_last().drop_last() =~= seq![
        Rule::Heading(1),
        Rule::Heading(2),
    ]);
    assert(rs.drop_last().drop_last().drop_last().drop_last() =~= seq![
        Rule::Heading(1),
        Rule::Heading(2),
        Rule::Heading(3),
    ]);
    assert(rs.drop_last().drop_last().drop_last() =~= seq![
        Rule::Heading(1),
        Rule::Heading(2),
        Rule::Heading(3),
        Rule::Heading(4),
    ]);
    assert(rs.drop_last().drop_last() =~= seq![
        Rule::Heading(1),
        Rule::Heading(2),
        Rule::Heading(3),
        Rule::Heading(4),
        Rule::Strong,
    ]);
    assert(rs.drop_last() =~= seq![
        Rule::Heading(1),
        Rule::Heading(2),
        Rule::Heading(3),
        Rule::Heading(4),
        Rule::Strong,
        Rule::Emphasis,
    ]);
    assert(strong_from(e, 0) == e);
    assert(em_from(e, 0) == e);
}

/// A line of the text that is exactly `n` hashes (one to four), one space and
/// a text `h` without `*` is, in the document body, exactly a heading of level
/// `n` around `h`: the same line, with no heading of another level.
pub proof fn law_heading_line(s: Seq<char>, i: int, n: u8, h: Seq<char>)
    requires
        1 <= n <= 4,
        0 <= i < split_lines(s).len(),
        split_lines(s)[i] == Seq::new(n as nat, |j: int| '#') + seq![' '] + h,
        forall|j: int| 0 <= j < h.len() ==> #[trigger] h[j] != '*',
    ensures
        split_lines(apply_lines(standard_rules(), body_lines(s)))[i] == heading_open(n) + h
            + heading_close(n),
{
    let l = split_lines(s)[i];
    assert(l[0] == '#');
    lemma_body_line(s, i);
    lemma_apply_lines_line(body_lines(s), i);
    lemma_heading_through(n, h);
}

/// Running the rules over a text is running all but the last of them, then
/// the last one over the whole of what they gave: each rule takes the text
/// that the rule before it left.
pub proof fn law_rules_in_sequence(rules: Seq<Rule>, t: Seq<char>)
    requires
        rules.len() >= 1,
        forall|i: int| 0 <= i < rules.len() ==> (#[trigger] rules[i]).wf(),
    ensures
        apply_spec(rules, t) == apply_spec(seq![rules.last()], apply_spec(rules.drop_last(), t)),
{
    let init = rules.drop_last();
    let one = seq![rules.last()];
    assert forall|i: int| 0 <= i < init.len() implies (#[trigger] init[i]).wf() by {
        assert(init[i] == rules[i]);
    }
    let ls = split_lines(t);
    lemma_split_lines_nonempty(t);
    let ms = ls.map_values(|l: Seq<char>| line_through(init, l));
    assert forall|j: int| 0 <= j < ms.len() implies is_line(#[trigger] ms[j]) by {
        lemma_line_through(init, ls[j]);
    }
    lemma_split_join(ms);
    assert(one.drop_last() =~= Seq::<Rule>::empty());
    assert(rules.drop_last() == init);
    assert forall|j: int| 0 <= j < ls.len() implies line_through(one, #[trigger] ms[j])
        == line_through(rules, ls[j]) by {
        assert(line_through(one.drop_last(), ms[j]) == ms[j]);
        assert(one.last() == rules.last());
    }
    assert(ms.map_values(|l: Seq<char>| line_through(one, l)) =~= ls.map_values(
        |l: Seq<char>| line_through(rules, l),
    ));
}

/// A line `# h`, with no `*` in `h`, becomes `<h1>h</h1>` in the document body.
pub proof fn law_single_hash_heading(s: Seq<char>, i: int, h: Seq<char>)
    requires
        0 <= i < split_lines(s).len(),
        split_lines(s)[i] == seq!['#', ' '] + h,
        forall|j: int| 0 <= j < h.len() ==> #[trigger] h[j] != '*',
    ensures
        split_lines(apply_lines(standard_rules(), body_lines(s)))[i] == seq!['<', 'h', '1', '>']
            + h + seq!['<', '/', 'h', '1', '>'],
{
    assert(Seq::new(1nat, |j: int| '#') + seq![' '] + h =~= seq!['#', ' '] + h);
    law_heading_line(s, i, 1, h);
    assert(heading_open(1) =~= seq!['<', 'h', '1', '>']);
    assert(heading_close(1) =~= seq!['<', '/', 'h', '1', '>']);
}

/// A line that starts with two hashes is never taken by the level-one
/// heading rule.
pub proof fn law_double_hash_not_level_one(l: Seq<char>)
    requires
        l.len() >= 2,
        l[0] == '#',
        l[1] == '#',
    ensures
        rule_line(Rule::Heading(1), l) == l,
{
}

/// An empty line of the text is, in the document body, exactly `<br />`.
pub proof fn law_blank_line(s: Seq<char>, i: int)
    requires
        0 <= i < split_lines(s).len(),
        split_lines(s)[i].len() == 0,
    ensures
        split_lines(apply_lines(standard_rules(), body_lines(s)))[i] == "<br />"@,
{
    lemma_body_line(s, i);
    lemma_apply_lines_line(body_lines(s), i);
    assert(split_lines(s)[i] =~= Seq::<char>::empty());
    lemma_blank_through();
}

/// A text whose first line is `! t` has the title `t`, and that line's text
/// is gone from the body.
pub proof fn law_title_line(s: Seq<char>, t: Seq<char>)
    requires
        split_lines(s)[0] == seq!['!', ' '] + t,
    ensures
        title_of(s) == Some(t),
        body_lines(s)[0].len() == 0,
        body_lines(s).len() == split_lines(s).len(),
{
    lemma_split_lines_nonempty(s);
    let ls = split_lines(s);
    assert(is_title_line(ls[0]));
    assert(first_title(ls, 0) == 0);
    assert(ls[0].subrange(2, ls[0].len() as int) =~= t);
}

/// A text without a title line has no title, so its document carries the
/// default one.
pub proof fn law_no_title_line(s: Seq<char>)
    requires
        forall|i: int| 0 <= i < split_lines(s).len() ==> !is_title_line(#[trigger] split_lines(s)[i]),
    ensures
        title_of(s) is None,
        body_lines(s) == split_lines(s),
{
    lemma_first_title(split_lines(s), 0);
}

/// A source whose file name starts with `.` is refused as unsupported when
/// it exists, and as not found when it does not.
pub proof fn law_hidden_unsupported(name: Seq<char>)
    requires
        is_hidden(name),
    ensures
        admission(true, Some(name)) == Err::<(), ConversionError>(ConversionError::Unsupported),
        admission(false, Some(name)) == Err::<(), ConversionError>(ConversionError::NotFound),
{
}

proof fn lemma_join_split(s: Seq<char>)
    ensures
        join_lines(split_lines(s)) == s,
    decreases s.len(),
{
    if s.len() > 0 {
        let s0 = s.drop_last();
        lemma_join_split(s0);
        lemma_split_lines_nonempty(s0);
        let ls = split_lines(s0);
        if s.last() == '\n' {
            let ms = ls.push(Seq::<char>::empty());
            assert(ms.drop_last() =~= ls);
            assert(s =~= s0 + seq!['\n'] + Seq::<char>::empty());
        } else {
            let c = s.last();
            let ms = ls.update(ls.len() - 1, ls.last().push(c));
            if ls.len() > 1 {
                assert(ms.drop_last() =~= ls.drop_last());
                assert(join_lines(ms) =~= join_lines(ls).push(c));
            }
            assert(s =~= s0.push(c));
        }
    }
}

spec fn lens_sum(ls: Seq<Seq<char>>) -> int
    decreases ls.len(),
{
    if ls.len() == 0 {
        0
    } else {
        lens_sum(ls.drop_last()) + ls.last().len()
    }
}

proof fn lemma_join_len(ls: Seq<Seq<char>>)
    requires
        ls.len() >= 1,
    ensures
        join_lines(ls).len() == lens_sum(ls) + ls.len() - 1,
    decreases ls.len(),
{
    if ls.len() > 1 {
        lemma_join_len(ls.drop_last());
    } else {
        assert(ls.drop_last().len() == 0);
        assert(lens_sum(ls.drop_last()) == 0);
        assert(ls.last() == ls[0]);
    }
}

proof fn lemma_lens_sum_mono(ls: Seq<Seq<char>>, ms: Seq<Seq<char>>)
    requires
        ls.len() == ms.len(),
        forall|i: int| 0 <= i < ls.len() ==> (#[trigger] ms[i]).len() >= ls[i].len(),
    ensures
        lens_sum(ms) >= lens_sum(ls),
    decreases ls.len(),
{
    if ls.len() > 0 {
        assert forall|i: int| 0 <= i < ls.len() - 1 implies (#[trigger] ms.drop_last()[i]).len()
            >= ls.drop_last()[i].len() by {
            assert(ms.drop_last()[i] == ms[i]);
        }
        lemma_lens_sum_mono(ls.drop_last(), ms.drop_last());
        assert(ms[ms.len() - 1].len() >= ls[ls.len() - 1].len());
    }
}

proof fn lemma_lens_sum_update(ls: Seq<Seq<char>>, i: int, x: Seq<char>)
    requires
        0 <= i < ls.len(),
    ensures
        lens_sum(ls.update(i, x)) == lens_sum(ls) - ls[i].len() + x.len(),
    decreases ls.len(),
{
    let us = ls.update(i, x);
    if i < ls.len() - 1 {
        assert(us.drop_last() =~= ls.drop_last().update(i, x));
        lemma_lens_sum_update(ls.drop_last(), i, x);
    } else {
        assert(us.drop_last() =~= ls.drop_last());
    }
}

/// The document is longer than its source text.
pub proof fn law_document_grows(s: Seq<char>)
    ensures
        document(standard_rules(), s).len() > s.len(),
{
    reveal_strlit("<!DOCTYPE html><html><head><title>");
    reveal_strlit("</title></head><body>");
    reveal_strlit("</body></html>");
    reveal_strlit("Markdown Page");
    let ls = split_lines(s);
    lemma_split_lines_nonempty(s);
    lemma_join_split(s);
    lemma_join_len(ls);
    lemma_first_title(ls, 0);
    let body = body_lines(s);
    assert(is_line(Seq::<char>::empty()));
    assert forall|j: int| 0 <= j < body.len() implies is_line(#[trigger] body[j]) by {
        assert(is_line(ls[j]));
    }
    let ms = body.map_values(|l: Seq<char>| line_through(standard_rules(), l));
    lemma_standard_wf();
    assert forall|j: int| 0 <= j < body.len() implies (#[trigger] ms[j]).len() >= body[j].len() by {
        lemma_line_through(standard_rules(), body[j]);
    }
    lemma_lens_sum_mono(body, ms);
    lemma_join_len(ms);
    let i = first_title(ls, 0);
    if i >= 0 {
        lemma_lens_sum_update(ls, i, Seq::<char>::empty());
    }
}

/// Running the pipeline on its own output never gives that output back: a
/// document is no fixed point of the conversion.
pub proof fn law_not_idempotent(s: Seq<char>)
    ensures
        document(standard_rules(), document(standard_rules(), s)) != document(standard_rules(), s),
{
    law_document_grows(document(standard_rules(), s));
}

} // verus!
