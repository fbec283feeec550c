//! Cron-expression validation and idempotent crontab registration.  The
//! validator is advisory: callers warn on an invalid expression and may
//! proceed anyway.

use vstd::prelude::*;

use crate::strutil::{
    contains_substring, filter_seq, has_substring, is_digit, is_digit_char, join_sep,
    join_sep_spec,
    lemma_filter_seq_all, lemma_filter_seq_app, lemma_filter_seq_elems, lemma_split_join,
    lemma_split_sep_elements, matches_at, split_sep, split_sep_spec, str_eq,
};

verus! {

/// A character that can appear in a standard cron field: a digit, a step
/// slash, or a wildcard.
pub open spec fn is_cron_glyph(c: char) -> bool {
    is_digit(c) || c == '/' || c == '*'
}

/// The named whole-schedule forms.
pub open spec fn is_named_schedule(s: Seq<char>) -> bool {
    s == "@annually"@ || s == "@yearly"@ || s == "@monthly"@ || s == "@weekly"@ || s == "@daily"@
        || s == "@hourly"@ || s == "@reboot"@
}

/// The number of leading digit characters.
pub open spec fn leading_digits(s: Seq<char>) -> int
    decreases s.len(),
{
    if s.len() > 0 && is_digit(s[0]) {
        1 + leading_digits(s.skip(1))
    } else {
        0
    }
}

/// `leading_digits` is determined by any boundary index.
pub proof fn lemma_leading_digits_char(s: Seq<char>, i: int)
    requires
        0 <= i <= s.len(),
        forall|j: int| 0 <= j < i ==> is_digit(#[trigger] s[j]),
        i < s.len() ==> !is_digit(s[i]),
    ensures
        leading_digits(s) == i,
    decreases s.len(),
{
    if s.len() > 0 && is_digit(s[0]) {
        assert(i >= 1);
        assert(forall|j: int| 0 <= j < i - 1 ==> is_digit(#[trigger] s.skip(1)[j]));
        lemma_leading_digits_char(s.skip(1), i - 1);
    } else {
        assert(i == 0);
    }
}

/// A two-character duration unit of an interval schedule.
pub open spec fn is_duration_unit2(a: char, b: char) -> bool {
    (a == 'n' && b == 's') || (a == 'u' && b == 's') || (a == 'µ' && b == 's') || (a == 'm' && b
        == 's')
}

/// A one-character duration unit of an interval schedule.
pub open spec fn is_duration_unit1(a: char) -> bool {
    a == 's' || a == 'm' || a == 'h'
}

/// One or more `<digits><unit>` groups, covering `s` exactly.  Two-letter
/// units are taken first; a lone `s` never starts a group, so the greedy
/// reading is the only one.
pub open spec fn durations_ok(s: Seq<char>) -> bool
    decreases s.len(),
{
    let d = leading_digits(s);
    if d < 1 || d > s.len() {
        false
    } else {
        let rest = s.skip(d);
        if rest.len() >= 2 && is_duration_unit2(rest[0], rest[1]) {
            rest.len() == 2 || durations_ok(rest.skip(2))
        } else if rest.len() >= 1 && is_duration_unit1(rest[0]) {
            rest.len() == 1 || durations_ok(rest.skip(1))
        } else {
            false
        }
    }
}

/// An interval schedule: `@every ` followed by duration groups.
pub open spec fn is_every_schedule(s: Seq<char>) -> bool {
    s.len() > "@every "@.len() && s.subrange(0, "@every "@.len() as int) == "@every "@
        && durations_ok(s.skip("@every "@.len() as int))
}

/// The whitespace-separated fields of a field-form expression.
pub open spec fn cron_words(s: Seq<char>) -> Seq<Seq<char>> {
    filter_seq(split_sep_spec(s, ' '), |w: Seq<char>| w.len() > 0)
}

/// A field is plausible when it holds at least one cron glyph.  Numeric
/// ranges are deliberately not enforced: the grammar is advisory.
pub open spec fn cron_field_plausible(w: Seq<char>) -> bool {
    exists|j: int| 0 <= j < w.len() && is_cron_glyph(w[j])
}

/// Five to seven fields, each plausible.
pub open spec fn fields_form_ok(s: Seq<char>) -> bool {
    let ws = cron_words(s);
    5 <= ws.len() <= 7 && forall|i: int|
        0 <= i < ws.len() ==> cron_field_plausible(#[trigger] ws[i])
}

/// A valid expression is a named schedule, an interval schedule, or five
/// to seven plausible fields.
pub open spec fn valid_cron_spec(s: Seq<char>) -> bool {
    is_named_schedule(s) || is_every_schedule(s) || fields_form_ok(s)
}

/// The number of leading digit characters from position `i`.
fn leading_digit_count(s: &str, i: usize) -> (r: usize)
    requires
        i <= s@.len(),
    ensures
        r == leading_digits(s@.skip(i as int)),
        i + r <= s@.len(),
{
    let len = s.unicode_len();
    let mut j: usize = i;
    while j < len && is_digit_char(s.get_char(j))
        invariant
            i <= j <= len,
            len == s@.len(),
            forall|m: int| i <= m < j ==> is_digit(#[trigger] s@[m]),
        decreases len - j,
    {
        j += 1;
    }
    proof {
        let t = s@.skip(i as int);
        assert(forall|m: int| 0 <= m < j - i ==> t[m] == s@[m + i]);
        assert(forall|m: int| 0 <= m < j - i ==> is_digit(#[trigger] t[m]));
        if j < len {
            assert(t[j - i] == s@[j as int]);
        }
        lemma_leading_digits_char(t, j - i);
    }
    j - i
}

/// Checks whether `s` from position `i` on is a run of duration groups.
fn durations_check(s: &str, i: usize) -> (r: bool)
    requires
        i <= s@.len(),
    ensures
        r == durations_ok(s@.skip(i as int)),
    decreases s@.len() - i,
{
    let len = s.unicode_len();
    let ghost t = s@.skip(i as int);
    let d = leading_digit_count(s, i);
    if d == 0 {
        return false;
    }
    let rest = i + d;
    proof {
        assert(t.skip(d as int) =~= s@.skip(rest as int));
        assert(forall|m: int| 0 <= m < len - rest ==> t.skip(d as int)[m] == s@[m + rest]);
    }
    if len >= 2 && rest <= len - 2 && {
        let a = s.get_char(rest);
        let b = s.get_char(rest + 1);
        (a == 'n' && b == 's') || (a == 'u' && b == 's') || (a == 'µ' && b == 's') || (a == 'm'
            && b == 's')
    } {
        proof {
            assert(s@.skip(rest as int)[0] == s@[rest as int]);
            assert(s@.skip(rest as int)[1] == s@[rest as int + 1]);
            assert(s@.skip(rest as int).skip(2) =~= s@.skip(rest as int + 2));
        }
        if rest == len - 2 {
            true
        } else {
            durations_check(s, rest + 2)
        }
    } else if rest < len && {
        let a = s.get_char(rest);
        a == 's' || a == 'm' || a == 'h'
    } {
        proof {
            assert(s@.skip(rest as int)[0] == s@[rest as int]);
            if rest + 2 <= len {
                assert(s@.skip(rest as int)[1] == s@[rest as int + 1]);
            }
            assert(s@.skip(rest as int).skip(1) =~= s@.skip(rest as int + 1));
        }
        if rest == len - 1 {
            true
        } else {
            durations_check(s, rest + 1)
        }
    } else {
        proof {
            if rest < len {
                assert(s@.skip(rest as int)[0] == s@[rest as int]);
            }
            if rest + 2 <= len {
                assert(s@.skip(rest as int)[1] == s@[rest as int + 1]);
            }
        }
        false
    }
}

/// Whether a field holds at least one cron glyph.
fn has_cron_glyph(w: &str) -> (r: bool)
    ensures
        r == cron_field_plausible(w@),
{
    let len = w.unicode_len();
    let mut i: usize = 0;
    while i < len
        invariant
            0 <= i <= len,
            len == w@.len(),
            forall|j: int| 0 <= j < i ==> !is_cron_glyph(#[trigger] w@[j]),
        decreases len - i,
    {
        let c = w.get_char(i);
        if ('0' <= c && c <= '9') || c == '/' || c == '*' {
            return true;
        }
        i += 1;
    }
    false
}

/// Collects the non-blank fields of an expression.
fn collect_words(s: &str) -> (r: Vec<String>)
    ensures
        r.deep_view() == cron_words(s@),
{
    let ghost p = |w: Seq<char>| w.len() > 0;
    let parts = split_sep(s, ' ');
    let ghost pv = parts.deep_view();
    let mut out: Vec<String> = Vec::new();
    let mut i: usize = 0;
    proof {
        assert(pv.skip(0) =~= pv);
        assert(out.deep_view() + filter_seq(pv, p) =~= filter_seq(pv, p));
    }
    while i < parts.len()
        invariant
            0 <= i <= parts.len(),
            pv == parts.deep_view(),
            pv.len() == parts.len(),
            pv == split_sep_spec(s@, ' '),
            p == (|w: Seq<char>| w.len() > 0),
            out.deep_view() + filter_seq(pv.skip(i as int), p) == filter_seq(pv, p),
        decreases parts.len() - i,
    {
        proof {
            assert(pv.skip(i as int)[0] == pv[i as int]);
            assert(pv.skip(i as int).skip(1) =~= pv.skip(i as int + 1));
            assert(parts.deep_view()[i as int] == parts@[i as int]@);
        }
        let ghost prev = out.deep_view();
        if parts[i].unicode_len() != 0 {
            out.push(parts[i].clone());
            proof {
                assert(out.deep_view() =~~= prev.push(pv[i as int]));
                assert(prev.push(pv[i as int]) + filter_seq(pv.skip(i as int + 1), p) =~= prev + (
                seq![pv[i as int]] + filter_seq(pv.skip(i as int + 1), p)));
            }
        } else {
            proof {
                assert(pv[i as int].len() == 0);
            }
        }
        i += 1;
    }
    proof {
        assert(pv.skip(pv.len() as int) =~= Seq::<Seq<char>>::empty());
        assert(filter_seq(pv.skip(pv.len() as int), p) =~= Seq::<Seq<char>>::empty());
        assert(out.deep_view() + Seq::<Seq<char>>::empty() =~= out.deep_view());
    }
    out
}

/// Validates a cron expression against the advisory grammar.
pub fn is_valid_cron_expression(expression: &str) -> (r: bool)
    ensures
        r == valid_cron_spec(expression@),
{
    if str_eq(expression, "@annually") || str_eq(expression, "@yearly") || str_eq(
        expression,
        "@monthly",
    ) || str_eq(expression, "@weekly") || str_eq(expression, "@daily") || str_eq(
        expression,
        "@hourly",
    ) || str_eq(expression, "@reboot") {
        return true;
    }
    let prefix = "@every ";
    let prefix_len = prefix.unicode_len();
    if crate::strutil::starts_with(expression, prefix) && expression.unicode_len() > prefix_len {
        if durations_check(expression, prefix_len) {
            return true;
        }
    }
    proof {
        if is_every_schedule(expression@) {
            assert(expression@.subrange(0, "@every "@.len() as int) == "@every "@);
        }
    }
    let words = collect_words(expression);
    if words.len() < 5 || words.len() > 7 {
        return false;
    }
    let mut i: usize = 0;
    while i < words.len()
        invariant
            0 <= i <= words.len(),
            words.deep_view() == cron_words(expression@),
            words.deep_view().len() == words.len(),
            5 <= words.len() <= 7,
            !is_named_schedule(expression@),
            !is_every_schedule(expression@),
            forall|j: int|
                0 <= j < i ==> cron_field_plausible(#[trigger] words.deep_view()[j]),
        decreases words.len() - i,
    {
        proof {
            assert(words.deep_view()[i as int] == words@[i as int]@);
        }
        if !has_cron_glyph(words[i].as_str()) {
            return false;
        }
        i += 1;
    }
    true
}

/// The default schedule: on the hour, every six hours.
pub fn default_cron_string() -> (r: &'static str)
    ensures
        r@ == "0 */6 * * *"@,
{
    "0 */6 * * *"
}

/// The schedule to use: the user's input, or the default when blank.
pub fn choose_cron_string(input: String) -> (r: String)
    ensures
        input@.len() == 0 ==> r@ == "0 */6 * * *"@,
        input@.len() > 0 ==> r@ == input@,
{
    if input.unicode_len() == 0 {
        String::from_str(default_cron_string())
    } else {
        input
    }
}

/// The crontab line registered for a schedule: the cron string, one
/// space, the command.
pub open spec fn cron_line_spec(cron_string: Seq<char>, command: Seq<char>) -> Seq<char> {
    cron_string + seq![' '] + command
}

/// Builds the crontab line for a schedule and command.
pub fn whale_cron_expression(cron_string: &str, command: &str) -> (r: String)
    ensures
        r@ == cron_line_spec(cron_string@, command@),
{
    let mut r = cron_string.to_owned();
    r.append(" ");
    r.append(command);
    proof {
        reveal_strlit(" ");
        assert(" "@ =~= seq![' ']);
        assert(r@ =~= cron_line_spec(cron_string@, command@));
    }
    r
}

/// Some line of the crontab text holds the token.
pub open spec fn crontab_registered(text: Seq<char>, token: Seq<char>) -> bool {
    exists|i: int|
        0 <= i < split_sep_spec(text, '\n').len() && has_substring(
            #[trigger] split_sep_spec(text, '\n')[i],
            token,
        )
}

/// Whether the given crontab text holds a line with the token.  The
/// caller obtains the text by listing the installed crontab.
pub fn is_cron_expression_registered(crontab_text: &str, token: &str) -> (r: bool)
    ensures
        r == crontab_registered(crontab_text@, token@),
{
    let lines = split_sep(crontab_text, '\n');
    let ghost lv = lines.deep_view();
    let mut i: usize = 0;
    while i < lines.len()
        invariant
            0 <= i <= lines.len(),
            lv == lines.deep_view(),
            lv.len() == lines.len(),
            lv == split_sep_spec(crontab_text@, '\n'),
            forall|j: int| 0 <= j < i ==> !has_substring(#[trigger] lv[j], token@),
        decreases lines.len() - i,
    {
        proof {
            assert(lines.deep_view()[i as int] == lines@[i as int]@);
        }
        if contains_substring(lines[i].as_str(), token) {
            return true;
        }
        i += 1;
    }
    false
}

/// The kept lines: those not holding the token.
pub open spec fn keep_lines(lines: Seq<Seq<char>>, token: Seq<char>) -> Seq<Seq<char>> {
    filter_seq(lines, |l: Seq<char>| !has_substring(l, token))
}

/// The rebuilt crontab: the current lines with every token-holding line
/// excised, then the new line appended, each line newline-terminated.
pub open spec fn rebuild_crontab_spec(
    current: Seq<char>,
    token: Seq<char>,
    new_line: Seq<char>,
) -> Seq<char> {
    join_sep_spec(keep_lines(split_sep_spec(current, '\n'), token).push(new_line), '\n')
}

/// Rebuilds the crontab content in-process: filters out every line that
/// holds the token and appends the new line.  The caller pipes the result
/// to the crontab installer, replacing, never duplicating, the job.
pub fn rebuild_crontab(current: &str, token: &str, new_line: &str) -> (r: String)
    ensures
        r@ == rebuild_crontab_spec(current@, token@, new_line@),
{
    let ghost p = |l: Seq<char>| !has_substring(l, token@);
    let lines = split_sep(current, '\n');
    let ghost lv = lines.deep_view();
    let mut kept: Vec<String> = Vec::new();
    let mut i: usize = 0;
    proof {
        assert(lv.skip(0) =~= lv);
        assert(kept.deep_view() + filter_seq(lv, p) =~= filter_seq(lv, p));
    }
    while i < lines.len()
        invariant
            0 <= i <= lines.len(),
            lv == lines.deep_view(),
            lv.len() == lines.len(),
            lv == split_sep_spec(current@, '\n'),
            p == (|l: Seq<char>| !has_substring(l, token@)),
            kept.deep_view() + filter_seq(lv.skip(i as int), p) == filter_seq(lv, p),
        decreases lines.len() - i,
    {
        proof {
            assert(lv.skip(i as int)[0] == lv[i as int]);
            assert(lv.skip(i as int).skip(1) =~= lv.skip(i as int + 1));
            assert(lines.deep_view()[i as int] == lines@[i as int]@);
        }
        let ghost prev = kept.deep_view();
        if !contains_substring(lines[i].as_str(), token) {
            kept.push(lines[i].clone());
            proof {
                assert(kept.deep_view() =~~= prev.push(lv[i as int]));
                assert(prev.push(lv[i as int]) + filter_seq(lv.skip(i as int + 1), p) =~= prev + (
                seq![lv[i as int]] + filter_seq(lv.skip(i as int + 1), p)));
            }
        }
        i += 1;
    }
    proof {
        assert(lv.skip(lv.len() as int) =~= Seq::<Seq<char>>::empty());
        assert(filter_seq(lv.skip(lv.len() as int), p) =~= Seq::<Seq<char>>::empty());
        assert(kept.deep_view() + Seq::<Seq<char>>::empty() =~= kept.deep_view());
    }
    let ghost kv = kept.deep_view();
    kept.push(new_line.to_owned());
    proof {
        assert(kept.deep_view() =~~= kv.push(new_line@));
        reveal_strlit("\n");
        assert("\n"@ =~= seq!['\n']);
    }
    join_sep(&kept, '\n', "\n")
}

/// The number of crontab lines holding the token.
pub open spec fn count_matching(text: Seq<char>, token: Seq<char>) -> nat {
    filter_seq(split_sep_spec(text, '\n'), |l: Seq<char>| has_substring(l, token)).len()
}

/// Registering a schedule twice for the same command, even with different
/// expressions, leaves exactly one line holding the command, and the
/// registration check then succeeds.
pub proof fn lemma_register_twice_idempotent(
    current: Seq<char>,
    expr1: Seq<char>,
    expr2: Seq<char>,
    command: Seq<char>,
)
    requires
        !expr1.contains('\n'),
        !expr2.contains('\n'),
        !command.contains('\n'),
        command.len() > 0,
    ensures
        ({
            let c1 = rebuild_crontab_spec(current, command, cron_line_spec(expr1, command));
            let c2 = rebuild_crontab_spec(c1, command, cron_line_spec(expr2, command));
            count_matching(c2, command) == 1 && crontab_registered(c2, command)
        }),
{
    let keep = |l: Seq<char>| !has_substring(l, command);
    let hit = |l: Seq<char>| has_substring(l, command);
    let l1 = cron_line_spec(expr1, command);
    let l2 = cron_line_spec(expr2, command);
    lemma_cron_line_wf(expr1, command);
    lemma_cron_line_wf(expr2, command);
    let lines0 = split_sep_spec(current, '\n');
    let kept0 = keep_lines(lines0, command);
    let c1 = rebuild_crontab_spec(current, command, l1);
    lemma_split_sep_elements(current, '\n');
    lemma_filter_seq_elems(lines0, keep);
    assert forall|i: int| 0 <= i < kept0.push(l1).len() implies !(#[trigger] kept0.push(l1)[i])
        .contains('\n') by {
        if i < kept0.len() {
            lemma_filter_in_lines(lines0, keep, i);
        }
    }
    lemma_split_join(kept0.push(l1), '\n');
    let lines1 = split_sep_spec(c1, '\n');
    assert(lines1 == kept0.push(l1));
    let kept1 = keep_lines(lines1, command);
    assert(kept0.push(l1) =~= kept0 + seq![l1]);
    lemma_filter_seq_app(kept0, seq![l1], keep);
    lemma_filter_seq_elems(lines0, keep);
    lemma_filter_seq_all(kept0, keep);
    assert(!keep(l1));
    assert(seq![l1].skip(1) =~= Seq::<Seq<char>>::empty());
    assert(filter_seq(seq![l1].skip(1), keep) =~= Seq::<Seq<char>>::empty());
    assert(filter_seq(seq![l1], keep) =~= Seq::<Seq<char>>::empty());
    assert(kept1 =~= kept0);
    let c2 = rebuild_crontab_spec(c1, command, l2);
    assert forall|i: int| 0 <= i < kept0.push(l2).len() implies !(#[trigger] kept0.push(l2)[i])
        .contains('\n') by {
        if i < kept0.len() {
            lemma_filter_in_lines(lines0, keep, i);
        }
    }
    lemma_split_join(kept0.push(l2), '\n');
    let lines2 = split_sep_spec(c2, '\n');
    assert(lines2 == kept1.push(l2));
    assert(lines2 =~= kept0 + seq![l2]);
    lemma_filter_seq_app(kept0, seq![l2], hit);
    assert forall|i: int| 0 <= i < kept0.len() implies !hit(#[trigger] kept0[i]) by {}
    lemma_filter_all_out(kept0, hit);
    assert(hit(l2));
    assert(seq![l2].skip(1) =~= Seq::<Seq<char>>::empty());
    assert(filter_seq(seq![l2].skip(1), hit) =~= Seq::<Seq<char>>::empty());
    assert(seq![l2][0] == l2);
    assert(filter_seq(seq![l2], hit) =~= seq![l2]);
    assert(filter_seq(lines2, hit) =~= seq![l2]);
    assert(count_matching(c2, command) == 1);
    assert(has_substring(lines2[lines2.len() - 1], command));
}

/// A registered line holds no newline, and holds the command.
proof fn lemma_cron_line_wf(expr: Seq<char>, command: Seq<char>)
    requires
        !expr.contains('\n'),
        !command.contains('\n'),
    ensures
        !cron_line_spec(expr, command).contains('\n'),
        has_substring(cron_line_spec(expr, command), command),
{
    let l = cron_line_spec(expr, command);
    if l.contains('\n') {
        let j = choose|j: int| 0 <= j < l.len() && l[j] == '\n';
        if j < expr.len() {
            assert(expr[j] == '\n');
        } else if j == expr.len() {
            assert(l[j] == ' ');
        } else {
            assert(command[j - expr.len() - 1] == '\n');
        }
    }
    let at = l.len() - command.len();
    assert(l.subrange(at, l.len() as int) =~= command);
    assert(matches_at(l, command, at));
}

/// Filtering with a predicate no element satisfies removes everything.
proof fn lemma_filter_all_out<T>(s: Seq<T>, p: spec_fn(T) -> bool)
    requires
        forall|i: int| 0 <= i < s.len() ==> !p(#[trigger] s[i]),
    ensures
        filter_seq(s, p) == Seq::<T>::empty(),
    decreases s.len(),
{
    if s.len() > 0 {
        assert(forall|i: int| 0 <= i < s.skip(1).len() ==> !p(#[trigger] s.skip(1)[i]));
        lemma_filter_all_out(s.skip(1), p);
    }
    assert(filter_seq(s, p) =~= Seq::<T>::empty());
}

/// A kept line is one of the lines that were split.
proof fn lemma_filter_in_lines(lines: Seq<Seq<char>>, p: spec_fn(Seq<char>) -> bool, i: int)
    requires
        0 <= i < filter_seq(lines, p).len(),
        forall|j: int| 0 <= j < lines.len() ==> !(#[trigger] lines[j]).contains('\n'),
    ensures
        !filter_seq(lines, p)[i].contains('\n'),
    decreases lines.len(),
{
    if lines.len() > 0 {
        assert(forall|j: int|
            0 <= j < lines.skip(1).len() ==> !(#[trigger] lines.skip(1)[j]).contains('\n'));
        if p(lines[0]) {
            if i > 0 {
                lemma_filter_in_lines(lines.skip(1), p, i - 1);
            }
        } else {
            lemma_filter_in_lines(lines.skip(1), p, i);
        }
    }
}

} // verus!
