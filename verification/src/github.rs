//! GitHub Actions output: workflow-command annotations and the job step summary.

use vstd::prelude::*;

use crate::api::sviews;
use crate::model::{CrateResult, CrateStatus, DepChanged, DepRemoved, FailOn, Report, Verdict};
use crate::text::{
    chars_of, decimal, extend_chars, join, push_decimal, push_str_chars, replace_all,
    replace_chars, string_of, join_strings,
};

verus! {

/// Workflow-command message escaping: `%`, then carriage return and newline, percent-encoded.
pub open spec fn spec_escape(m: Seq<char>) -> Seq<char> {
    replace_all(replace_all(replace_all(m, "%"@, "%25"@), "\r"@, "%0D"@), "\n"@, "%0A"@)
}

fn escape(message: &Vec<char>) -> (r: Vec<char>)
    ensures
        r@ == spec_escape(message@),
{
    proof {
        reveal_strlit("%");
        reveal_strlit("\r");
        reveal_strlit("\n");
    }
    let a = replace_chars(message, &chars_of("%"), &chars_of("%25"));
    let b = replace_chars(&a, &chars_of("\r"), &chars_of("%0D"));
    replace_chars(&b, &chars_of("\n"), &chars_of("%0A"))
}

/// Names of the crates with a removed or changed item, or a public-dependency finding.
pub open spec fn spec_broken_crates(crates: Seq<CrateResult>) -> Seq<Seq<char>>
    decreases crates.len(),
{
    if crates.len() == 0 {
        Seq::empty()
    } else {
        let init = spec_broken_crates(crates.drop_last());
        let c = crates.last();
        if c.removed + c.changed > 0 || c.pubdep@.len() > 0 {
            init.push(c.name@)
        } else {
            init
        }
    }
}

/// `name version removed` for each breaking removal, then `name old -> new` for each
/// breaking change.
pub open spec fn spec_breaking_deps(removed: Seq<DepRemoved>, changed: Seq<DepChanged>) -> Seq<Seq<char>> {
    breaking_removed(removed) + breaking_changed(changed)
}

/// The breaking removals, rendered.
pub open spec fn breaking_removed(removed: Seq<DepRemoved>) -> Seq<Seq<char>>
    decreases removed.len(),
{
    if removed.len() == 0 {
        Seq::empty()
    } else {
        let init = breaking_removed(removed.drop_last());
        let d = removed.last();
        if d.breaking {
            init.push(d.name@ + " "@ + d.version@ + " removed"@)
        } else {
            init
        }
    }
}

/// The breaking changes, rendered.
pub open spec fn breaking_changed(changed: Seq<DepChanged>) -> Seq<Seq<char>>
    decreases changed.len(),
{
    if changed.len() == 0 {
        Seq::empty()
    } else {
        let init = breaking_changed(changed.drop_last());
        let d = changed.last();
        if d.breaking {
            init.push(d.name@ + " "@ + d.old@ + " -> "@ + d.new@)
        } else {
            init
        }
    }
}

/// Each failed crate, with its stage when known.
pub open spec fn spec_failed_crates(crates: Seq<CrateResult>) -> Seq<Seq<char>>
    decreases crates.len(),
{
    if crates.len() == 0 {
        Seq::empty()
    } else {
        let init = spec_failed_crates(crates.drop_last());
        let c = crates.last();
        if c.status == CrateStatus::Error {
            init.push(
                match c.error {
                    Some(e) => c.name@ + " ("@ + e.stage.spec_str() + ")"@,
                    None => c.name@,
                },
            )
        } else {
            init
        }
    }
}

/// The workflow-command lines for a finished report: an API-break line (an error only when
/// the policy fails on it), a dependency warning, and an analysis-failure error.
pub open spec fn spec_annotations(report: Report, fail_on: FailOn) -> Seq<Seq<char>> {
    let api_breaks = report.removed_total + report.changed_total + report.pubdep_break_total;
    let first = if api_breaks > 0 {
        seq![
            "::"@ + (if fail_on.spec_fails_on_api_break() { "error"@ } else { "warning"@ })
                + " title=Breaking public API change::"@ + decimal(api_breaks as nat)
                + " breaking change(s) in "@ + spec_escape(
                join(spec_broken_crates(report.crates@), ", "@),
            ),
        ]
    } else {
        Seq::empty()
    };
    let second = if report.deps.breaking > 0 {
        seq![
            "::warning title=Consumer-visible dependency change::"@ + spec_escape(
                join(spec_breaking_deps(report.deps.removed@, report.deps.changed@), ", "@),
            ),
        ]
    } else {
        Seq::empty()
    };
    let third = if report.spec_verdict() == Verdict::Error {
        seq!["::error title=API analysis failed::"@ + spec_escape(join(spec_failed_crates(report.crates@), ", "@))]
    } else {
        Seq::empty()
    };
    first + second + third
}

fn broken_crates(crates: &Vec<CrateResult>) -> (r: Vec<String>)
    ensures
        sviews(r@) == spec_broken_crates(crates@),
{
    let mut out: Vec<String> = Vec::new();
    let mut i: usize = 0;
    while i < crates.len()
        invariant
            i <= crates.len(),
            sviews(out@) == spec_broken_crates(crates@.take(i as int)),
        decreases crates.len() - i,
    {
        assert(crates@.take(i + 1).drop_last() == crates@.take(i as int));
        let c = &crates[i];
        if c.removed > 0 || c.changed > 0 || c.pubdep.len() > 0 {
            let ghost before = out@;
            out.push(string_of(&chars_of(c.name.as_str())));
            assert(sviews(out@) =~= sviews(before).push(c.name@));
        }
        i += 1;
    }
    assert(crates@.take(crates.len() as int) == crates@);
    out
}

fn breaking_deps(removed: &Vec<DepRemoved>, changed: &Vec<DepChanged>) -> (r: Vec<String>)
    ensures
        sviews(r@) == spec_breaking_deps(removed@, changed@),
{
    let mut out: Vec<String> = Vec::new();
    let mut i: usize = 0;
    while i < removed.len()
        invariant
            i <= removed.len(),
            sviews(out@) == breaking_removed(removed@.take(i as int)),
        decreases removed.len() - i,
    {
        assert(removed@.take(i + 1).drop_last() == removed@.take(i as int));
        let d = &removed[i];
        if d.breaking {
            let mut line: Vec<char> = Vec::new();
            push_str_chars(&mut line, d.name.as_str());
            push_str_chars(&mut line, " ");
            push_str_chars(&mut line, d.version.as_str());
            push_str_chars(&mut line, " removed");
            let ghost before = out@;
            out.push(string_of(&line));
            assert(sviews(out@) =~= sviews(before).push(line@));
        }
        i += 1;
    }
    assert(removed@.take(removed.len() as int) == removed@);
    let ghost first = sviews(out@);
    let mut k: usize = 0;
    while k < changed.len()
        invariant
            k <= changed.len(),
            first == breaking_removed(removed@),
            sviews(out@) == first + breaking_changed(changed@.take(k as int)),
        decreases changed.len() - k,
    {
        assert(changed@.take(k + 1).drop_last() == changed@.take(k as int));
        let d = &changed[k];
        if d.breaking {
            let mut line: Vec<char> = Vec::new();
            push_str_chars(&mut line, d.name.as_str());
            push_str_chars(&mut line, " ");
            push_str_chars(&mut line, d.old.as_str());
            push_str_chars(&mut line, " -> ");
            push_str_chars(&mut line, d.new.as_str());
            let ghost before = out@;
            out.push(string_of(&line));
            assert(sviews(out@) =~= sviews(before).push(line@));
        }
        k += 1;
    }
    assert(changed@.take(changed.len() as int) == changed@);
    out
}

fn failed_crates(crates: &Vec<CrateResult>) -> (r: Vec<String>)
    ensures
        sviews(r@) == spec_failed_crates(crates@),
{
    let mut out: Vec<String> = Vec::new();
    let mut i: usize = 0;
    while i < crates.len()
        invariant
            i <= crates.len(),
            sviews(out@) == spec_failed_crates(crates@.take(i as int)),
        decreases crates.len() - i,
    {
        assert(crates@.take(i + 1).drop_last() == crates@.take(i as int));
        let c = &crates[i];
        if c.status == CrateStatus::Error {
            let mut line: Vec<char> = Vec::new();
            push_str_chars(&mut line, c.name.as_str());
            match &c.error {
                Some(e) => {
                    push_str_chars(&mut line, " (");
                    push_str_chars(&mut line, e.stage.as_str());
                    push_str_chars(&mut line, ")");
                },
                None => {},
            }
            let ghost before = out@;
            out.push(string_of(&line));
            assert(sviews(out@) =~= sviews(before).push(line@));
        }
        i += 1;
    }
    assert(crates@.take(crates.len() as int) == crates@);
    out
}

fn joined_escaped(parts: &Vec<String>) -> (r: Vec<char>)
    ensures
        r@ == spec_escape(join(sviews(parts@), ", "@)),
{
    let j = join_strings(parts, ", ");
    assert(sviews(parts@) == parts@.map_values(|p: String| p@));
    escape(&chars_of(j.as_str()))
}

/// Workflow-command lines describing the final result.
///
/// Severity follows the policy: a break that does not fail the run is a warning. Dependency
/// changes are always a warning; an analysis error is always an error.
pub fn annotations(report: &Report, fail_on: FailOn) -> (r: Vec<String>)
    requires
        report.removed_total + report.changed_total + report.pubdep_break_total <= usize::MAX,
    ensures
        sviews(r@) == spec_annotations(*report, fail_on),
{
    let mut lines: Vec<String> = Vec::new();
    let api_breaks = report.removed_total + report.changed_total + report.pubdep_break_total;
    let ghost first: Seq<Seq<char>> = Seq::empty();
    if api_breaks > 0 {
        let mut line: Vec<char> = Vec::new();
        push_str_chars(&mut line, "::");
        push_str_chars(&mut line, if fail_on.fails_on_api_break() { "error" } else { "warning" });
        push_str_chars(&mut line, " title=Breaking public API change::");
        push_decimal(&mut line, api_breaks);
        push_str_chars(&mut line, " breaking change(s) in ");
        let names = broken_crates(&report.crates);
        let esc = joined_escaped(&names);
        extend_chars(&mut line, &esc);
        lines.push(string_of(&line));
        proof {
            first = seq![line@];
            assert(sviews(lines@) =~= first);
        }
    } else {
        assert(sviews(lines@) =~= first);
    }
    let ghost second: Seq<Seq<char>> = Seq::empty();
    if report.deps.breaking > 0 {
        let mut line: Vec<char> = Vec::new();
        push_str_chars(&mut line, "::warning title=Consumer-visible dependency change::");
        let deps = breaking_deps(&report.deps.removed, &report.deps.changed);
        let esc = joined_escaped(&deps);
        extend_chars(&mut line, &esc);
        let ghost before = lines@;
        lines.push(string_of(&line));
        proof {
            second = seq![line@];
            assert(sviews(lines@) =~= sviews(before) + second);
        }
    } else {
        assert(sviews(lines@) =~= first + second);
    }
    if report.verdict() == Verdict::Error {
        let mut line: Vec<char> = Vec::new();
        push_str_chars(&mut line, "::error title=API analysis failed::");
        let failed = failed_crates(&report.crates);
        let esc = joined_escaped(&failed);
        extend_chars(&mut line, &esc);
        let ghost before = lines@;
        lines.push(string_of(&line));
        assert(sviews(lines@) =~= sviews(before) + seq![line@]);
    } else {
        assert(sviews(lines@) =~= first + second + Seq::empty());
    }
    lines
}

/// A `| label | count |` table row.
pub open spec fn total_row(label: Seq<char>, count: nat) -> Seq<char> {
    "| "@ + label + " | "@ + decimal(count) + " |\n"@
}

/// The per-crate rows: crates with changes, with their counts.
pub open spec fn crate_rows(crates: Seq<CrateResult>) -> Seq<char>
    decreases crates.len(),
{
    if crates.len() == 0 {
        Seq::empty()
    } else {
        let c = crates.last();
        crate_rows(crates.drop_last()) + if c.removed + c.changed + c.added > 0 {
            "| "@ + c.name@ + " | "@ + decimal(c.removed as nat) + " | "@ + decimal(
                c.changed as nat,
            ) + " | "@ + decimal(c.added as nat) + " |\n"@
        } else {
            Seq::empty()
        }
    }
}

/// Markdown for `GITHUB_STEP_SUMMARY`: verdict heading, ref line, totals table, and a
/// per-crate table when any crate changed.
pub open spec fn spec_step_summary(report: Report) -> Seq<char> {
    "## zc: "@ + report.spec_verdict().spec_str() + "\n\n"@ + "`"@ + report.refs.baseline_label@
        + "` ("@ + report.refs.baseline_short@ + ") -> `"@ + report.refs.head_label@ + "` ("@
        + report.refs.head_short@ + ")\n\n"@ + "| Total | Count |\n| --- | ---: |\n"@ + total_row(
        "API removed"@,
        report.removed_total as nat,
    ) + total_row("API changed"@, report.changed_total as nat) + total_row(
        "API added"@,
        report.added_total as nat,
    ) + total_row("Breaking dependencies"@, report.deps.breaking as nat) + total_row(
        "Public-dependency breaks"@,
        report.pubdep_break_total as nat,
    ) + total_row("Value changes"@, report.values@.len()) + total_row(
        "Doc changes"@,
        report.docs@.len(),
    ) + total_row("Crates with analysis errors"@, report.error_crate_count as nat) + if report.changed_crate_count > 0 {
        "\n| Crate | Removed | Changed | Added |\n| --- | ---: | ---: | ---: |\n"@ + crate_rows(
            report.crates@,
        )
    } else {
        Seq::empty()
    }
}

fn push_row(out: &mut Vec<char>, label: &str, count: usize)
    ensures
        final(out)@ == old(out)@ + total_row(label@, count as nat),
{
    push_str_chars(out, "| ");
    push_str_chars(out, label);
    push_str_chars(out, " | ");
    push_decimal(out, count);
    push_str_chars(out, " |\n");
    assert(final(out)@ =~= old(out)@ + total_row(label@, count as nat));
}

/// Markdown appended to `GITHUB_STEP_SUMMARY`.
pub fn step_summary(report: &Report) -> (r: String)
    ensures
        r@ == spec_step_summary(*report),
{
    let mut out: Vec<char> = Vec::new();
    push_str_chars(&mut out, "## zc: ");
    push_str_chars(&mut out, report.verdict().as_str());
    push_str_chars(&mut out, "\n\n");
    push_str_chars(&mut out, "`");
    push_str_chars(&mut out, report.refs.baseline_label.as_str());
    push_str_chars(&mut out, "` (");
    push_str_chars(&mut out, report.refs.baseline_short.as_str());
    push_str_chars(&mut out, ") -> `");
    push_str_chars(&mut out, report.refs.head_label.as_str());
    push_str_chars(&mut out, "` (");
    push_str_chars(&mut out, report.refs.head_short.as_str());
    push_str_chars(&mut out, ")\n\n");
    push_str_chars(&mut out, "| Total | Count |\n| --- | ---: |\n");
    push_row(&mut out, "API removed", report.removed_total);
    push_row(&mut out, "API changed", report.changed_total);
    push_row(&mut out, "API added", report.added_total);
    push_row(&mut out, "Breaking dependencies", report.deps.breaking);
    push_row(&mut out, "Public-dependency breaks", report.pubdep_break_total);
    push_row(&mut out, "Value changes", report.values.len());
    push_row(&mut out, "Doc changes", report.docs.len());
    push_row(&mut out, "Crates with analysis errors", report.error_crate_count);
    let ghost head = out@;
    if report.changed_crate_count > 0 {
        push_str_chars(
            &mut out,
            "\n| Crate | Removed | Changed | Added |\n| --- | ---: | ---: | ---: |\n",
        );
        let ghost mid = out@;
        let mut i: usize = 0;
        while i < report.crates.len()
            invariant
                i <= report.crates.len(),
                out@ == mid + crate_rows(report.crates@.take(i as int)),
            decreases report.crates.len() - i,
        {
            assert(report.crates@.take(i + 1).drop_last() == report.crates@.take(i as int));
            let c = &report.crates[i];
            let ghost before = out@;
            if c.removed > 0 || c.changed > 0 || c.added > 0 {
                push_str_chars(&mut out, "| ");
                push_str_chars(&mut out, c.name.as_str());
                push_str_chars(&mut out, " | ");
                push_decimal(&mut out, c.removed);
                push_str_chars(&mut out, " | ");
                push_decimal(&mut out, c.changed);
                push_str_chars(&mut out, " | ");
                push_decimal(&mut out, c.added);
                push_str_chars(&mut out, " |\n");
            }
            assert(out@ =~= mid + crate_rows(report.crates@.take(i + 1)));
            i += 1;
        }
        assert(report.crates@.take(report.crates.len() as int) == report.crates@);
    }
    assert(out@ =~= spec_step_summary(*report));
    string_of(&out)
}

proof fn lemma_decimal_no_break(n: nat)
    ensures
        !decimal(n).contains('\n'),
        !decimal(n).contains('\r'),
    decreases n,
{
    if n >= 10 {
        lemma_decimal_no_break(n / 10);
        let d = decimal(n / 10);
        assert(decimal(n) == d.push(crate::text::digit(n % 10)));
        assert(!decimal(n).contains('\n') && !decimal(n).contains('\r')) by {
            if decimal(n).contains('\n') || decimal(n).contains('\r') {
                let k = choose|k: int| 0 <= k < decimal(n).len() && (decimal(n)[k] == '\n' || decimal(n)[k] == '\r');
                if k < d.len() {
                    assert(d[k] == decimal(n)[k]);
                }
            }
        }
    } else {
        assert(decimal(n) == seq![crate::text::digit(n)]);
        assert(!decimal(n).contains('\n') && !decimal(n).contains('\r')) by {
            if decimal(n).contains('\n') || decimal(n).contains('\r') {
                let k = choose|k: int| 0 <= k < decimal(n).len() && (decimal(n)[k] == '\n' || decimal(n)[k] == '\r');
                assert(k == 0);
            }
        }
    }
}

proof fn lemma_escape_no_break(m: Seq<char>)
    ensures
        !spec_escape(m).contains('\n'),
        !spec_escape(m).contains('\r'),
{
    reveal_strlit("%");
    reveal_strlit("%25");
    reveal_strlit("\r");
    reveal_strlit("%0D");
    reveal_strlit("\n");
    reveal_strlit("%0A");
    assert("\r"@ =~= seq!['\r']);
    assert("\n"@ =~= seq!['\n']);
    let d: Seq<char> = "%0D"@;
    let a: Seq<char> = "%0A"@;
    assert(!d.contains('\r') && !d.contains('\n')) by {
        assert(d[0] == '%' && d[1] == '0' && d[2] == 'D');
    }
    assert(!a.contains('\r') && !a.contains('\n')) by {
        assert(a[0] == '%' && a[1] == '0' && a[2] == 'A');
    }
    let m1 = replace_all(m, "%"@, "%25"@);
    let m2 = replace_all(m1, "\r"@, d);
    crate::text::lemma_replace_removes(m1, '\r', d);
    crate::text::lemma_replace_removes(m2, '\n', a);
    crate::text::lemma_replace_keeps_out(m2, "\n"@, a, '\r');
}

proof fn lemma_line_no_break(parts: Seq<Seq<char>>)
    requires
        forall|i: int| 0 <= i < parts.len() ==> !(#[trigger] parts[i]).contains('\n') && !parts[i].contains('\r'),
    ensures
        !parts.fold_left(Seq::<char>::empty(), |acc: Seq<char>, p: Seq<char>| acc + p).contains('\n'),
        !parts.fold_left(Seq::<char>::empty(), |acc: Seq<char>, p: Seq<char>| acc + p).contains('\r'),
    decreases parts.len(),
{
    if parts.len() > 0 {
        let init = parts.drop_last();
        assert(forall|i: int| 0 <= i < init.len() ==> #[trigger] init[i] == parts[i]);
        lemma_line_no_break(init);
        let acc = init.fold_left(Seq::<char>::empty(), |acc: Seq<char>, p: Seq<char>| acc + p);
        assert(parts.fold_left(Seq::<char>::empty(), |acc: Seq<char>, p: Seq<char>| acc + p) == acc + parts.last());
        assert(parts[parts.len() - 1] == parts.last());
        crate::text::lemma_no_char_concat(acc, parts.last(), '\n');
        crate::text::lemma_no_char_concat(acc, parts.last(), '\r');
    }
}

/// Every annotation is one workflow command on one line: whatever the crate and dependency
/// names hold, no annotation carries a line feed or a carriage return.
pub proof fn law_annotations_stay_on_one_line(report: Report, fail_on: FailOn)
    ensures
        forall|i: int| 0 <= i < spec_annotations(report, fail_on).len() ==> !(#[trigger] spec_annotations(report, fail_on)[i]).contains('\n')
            && !spec_annotations(report, fail_on)[i].contains('\r'),
{
    reveal_strlit("::");
    reveal_strlit("error");
    reveal_strlit("warning");
    reveal_strlit(" title=Breaking public API change::");
    reveal_strlit(" breaking change(s) in ");
    reveal_strlit("::warning title=Consumer-visible dependency change::");
    reveal_strlit("::error title=API analysis failed::");
    let api_breaks = report.removed_total + report.changed_total + report.pubdep_break_total;
    let level: Seq<char> = if fail_on.spec_fails_on_api_break() { "error"@ } else { "warning"@ };
    let e1 = spec_escape(join(spec_broken_crates(report.crates@), ", "@));
    let e2 = spec_escape(join(spec_breaking_deps(report.deps.removed@, report.deps.changed@), ", "@));
    let e3 = spec_escape(join(spec_failed_crates(report.crates@), ", "@));
    lemma_escape_no_break(join(spec_broken_crates(report.crates@), ", "@));
    lemma_escape_no_break(join(spec_breaking_deps(report.deps.removed@, report.deps.changed@), ", "@));
    lemma_escape_no_break(join(spec_failed_crates(report.crates@), ", "@));
    lemma_decimal_no_break(api_breaks as nat);
    let l1 = "::"@ + level + " title=Breaking public API change::"@ + decimal(api_breaks as nat)
        + " breaking change(s) in "@ + e1;
    let l2 = "::warning title=Consumer-visible dependency change::"@ + e2;
    let l3 = "::error title=API analysis failed::"@ + e3;
    let p1 = seq!["::"@, level, " title=Breaking public API change::"@, decimal(api_breaks as nat), " breaking change(s) in "@, e1];
    let p2 = seq!["::warning title=Consumer-visible dependency change::"@, e2];
    let p3 = seq!["::error title=API analysis failed::"@, e3];
    assert(forall|i: int| 0 <= i < p1.len() ==> !(#[trigger] p1[i]).contains('\n') && !p1[i].contains('\r'));
    assert(forall|i: int| 0 <= i < p2.len() ==> !(#[trigger] p2[i]).contains('\n') && !p2[i].contains('\r'));
    assert(forall|i: int| 0 <= i < p3.len() ==> !(#[trigger] p3[i]).contains('\n') && !p3[i].contains('\r'));
    lemma_line_no_break(p1);
    lemma_line_no_break(p2);
    lemma_line_no_break(p3);
    assert(p1.fold_left(Seq::<char>::empty(), |acc: Seq<char>, p: Seq<char>| acc + p) =~= l1) by {
        reveal_with_fuel(vstd::seq::Seq::fold_left, 7);
    }
    assert(p2.fold_left(Seq::<char>::empty(), |acc: Seq<char>, p: Seq<char>| acc + p) =~= l2) by {
        reveal_with_fuel(vstd::seq::Seq::fold_left, 3);
    }
    assert(p3.fold_left(Seq::<char>::empty(), |acc: Seq<char>, p: Seq<char>| acc + p) =~= l3) by {
        reveal_with_fuel(vstd::seq::Seq::fold_left, 3);
    }
    let all = spec_annotations(report, fail_on);
    assert forall|i: int| 0 <= i < all.len() implies !(#[trigger] all[i]).contains('\n') && !all[i].contains('\r') by {
        assert(all[i] == l1 || all[i] == l2 || all[i] == l3);
    }
}

/// The annotations come in a fixed order, each exactly when its condition holds: first the
/// API line when the report has API or public-dependency breaks (an error when the policy
/// fails on API breaks, else a warning), then the dependency warning when a runtime
/// dependency change is breaking, then the analysis error when the verdict is `error`;
/// nothing else.
pub proof fn law_annotation_order(report: Report, fail_on: FailOn)
    ensures
        ({
            let all = spec_annotations(report, fail_on);
            let api = report.removed_total + report.changed_total + report.pubdep_break_total > 0;
            let dep = report.deps.breaking > 0;
            let err = report.spec_verdict() == Verdict::Error;
            let a: int = if api { 1 } else { 0 };
            let b: int = if dep { 1 } else { 0 };
            let c: int = if err { 1 } else { 0 };
            &&& all.len() == a + b + c
            &&& api ==> crate::text::starts_with(
                all[0],
                if fail_on is Breaking || fail_on is ApiBreaking {
                    "::error title=Breaking public API change::"@
                } else {
                    "::warning title=Breaking public API change::"@
                },
            )
            &&& dep ==> crate::text::starts_with(
                all[a],
                "::warning title=Consumer-visible dependency change::"@,
            )
            &&& err ==> crate::text::starts_with(all[a + b], "::error title=API analysis failed::"@)
        }),
{
    reveal_strlit("::");
    reveal_strlit("error");
    reveal_strlit("warning");
    reveal_strlit(" title=Breaking public API change::");
    reveal_strlit("::error title=Breaking public API change::");
    reveal_strlit("::warning title=Breaking public API change::");
    let api_breaks = report.removed_total + report.changed_total + report.pubdep_break_total;
    let level: Seq<char> = if fail_on.spec_fails_on_api_break() { "error"@ } else { "warning"@ };
    let head: Seq<char> = "::"@ + level + " title=Breaking public API change::"@;
    let want: Seq<char> = if fail_on is Breaking || fail_on is ApiBreaking {
        "::error title=Breaking public API change::"@
    } else {
        "::warning title=Breaking public API change::"@
    };
    assert(head =~= want);
    let l1 = head + decimal(api_breaks as nat) + " breaking change(s) in "@ + spec_escape(
        join(spec_broken_crates(report.crates@), ", "@),
    );
    assert(l1.subrange(0, want.len() as int) =~= want);
    let l2 = "::warning title=Consumer-visible dependency change::"@ + spec_escape(
        join(spec_breaking_deps(report.deps.removed@, report.deps.changed@), ", "@),
    );
    assert(l2.subrange(0, "::warning title=Consumer-visible dependency change::"@.len() as int)
        =~= "::warning title=Consumer-visible dependency change::"@);
    let l3 = "::error title=API analysis failed::"@ + spec_escape(
        join(spec_failed_crates(report.crates@), ", "@),
    );
    assert(l3.subrange(0, "::error title=API analysis failed::"@.len() as int)
        =~= "::error title=API analysis failed::"@);
}

} // verus!
