//! The command line and the run-level decisions taken from it: argument parsing, which refs
//! are compared, and the totals the verdict is drawn from.

use vstd::prelude::*;

use crate::api::sviews;
use crate::model::{
    spec_fail_on, Bump, CrateResult, CrateStatus, FailOn, GroupMode, Options, EXIT_OK, EXIT_USAGE,
};
use crate::style::Style;
use crate::text::{chars_of, push_str_chars, str_eq, string_of, starts_with};
use crate::version_req::{classify_bump, spec_classify_bump};

verus! {

/// The program's version, as `--version` prints it.
pub const VERSION: &'static str = "0.1.0";

/// The `--help` text.
pub fn help_text() -> (r: String)
    ensures
        r@ == spec_help(),
{
    string_of(&chars_of(HELP))
}

/// The usage summary printed by `--help`.
pub const HELP: &'static str = "zc: diff the public API and dependencies of a Rust workspace's crates between two git refs\n\nUSAGE:\n    zc [OPTIONS] [BASE] [HEAD]\n\nWith no ref, a dirty tree is compared against HEAD and a clean one against its parent branch;\nwith one ref, against the merge-base of that ref and the head.\n\nOPTIONS:\n    --with-lock              include the transitive Cargo.lock diff\n    --with-values            also diff const/static values and doc comments\n    --flat                   list items ungrouped\n    --by-type                group items by owning type\n    --json                   print the machine-readable report\n    --changelog              print a librustzcash-style changelog draft\n    --changelog-file PATH    also write the changelog draft to PATH\n    --report PATH            also write the JSON report to PATH\n    --fail-on POLICY         breaking (default), api-breaking, error, or none\n    -h, --help               print this help\n    -V, --version            print the version\n\nEXIT CODES:\n    0 no breaking change, 1 breaking change, 2 analysis error, 64 usage error";

/// The help text's characters.
pub open spec fn spec_help() -> Seq<char> {
    HELP@
}

/// A parsed command line.
pub struct Args {
    pub opts: Options,
    pub positional: Vec<String>,
}

/// The options as plain values: lock, values, json, changelog, grouping, policy, report path,
/// changelog path.
pub type OptionsView = (bool, bool, bool, bool, GroupMode, FailOn, Option<Seq<char>>, Option<Seq<char>>);

/// The view of options.
pub open spec fn options_view(o: Options) -> OptionsView {
    (
        o.with_lock,
        o.with_values,
        o.json_mode,
        o.changelog_mode,
        o.group_mode,
        o.fail_on,
        match o.report_path {
            Some(p) => Some(p@),
            None => None,
        },
        match o.changelog_path {
            Some(p) => Some(p@),
            None => None,
        },
    )
}

/// The options before any flag.
pub open spec fn default_options() -> OptionsView {
    (false, false, false, false, GroupMode::Mod, FailOn::Breaking, None, None)
}

/// `error:` in red, then the message and the pointer to `--help`.
pub open spec fn usage_error(style: Style, message: Seq<char>) -> Seq<char> {
    style.red@ + "error:"@ + style.reset@ + " "@ + message + " (run with --help for usage)"@
}

/// The diagnostic for an option given without its value.
pub open spec fn spec_missing_value(style: Style, option: Seq<char>) -> Seq<char> {
    usage_error(style, "'"@ + option + "' needs a value"@)
}

/// The diagnostic for an option given without its value.
pub fn missing_value(style: &Style, option: &str) -> (r: String)
    ensures
        r@ == spec_missing_value(*style, option@),
{
    let mut out: Vec<char> = Vec::new();
    push_str_chars(&mut out, style.red);
    push_str_chars(&mut out, "error:");
    push_str_chars(&mut out, style.reset);
    push_str_chars(&mut out, " ");
    push_str_chars(&mut out, "'");
    push_str_chars(&mut out, option);
    push_str_chars(&mut out, "' needs a value");
    push_str_chars(&mut out, " (run with --help for usage)");
    assert(out@ =~= spec_missing_value(*style, option@));
    string_of(&out)
}

/// The outcome of the command line from argument `i` on, with the options so far: the
/// options and positional arguments, or a message and exit code.
pub open spec fn spec_parse_from(argv: Seq<Seq<char>>, i: int, o: OptionsView, style: Style) -> Result<
    (OptionsView, Seq<Seq<char>>),
    (Seq<char>, i32),
>
    decreases argv.len() - i,
{
    if i < 0 || i >= argv.len() {
        Ok((o, Seq::empty()))
    } else {
        let a = argv[i];
        if a == "-h"@ || a == "--help"@ {
            Err((spec_help(), EXIT_OK))
        } else if a == "-V"@ || a == "--version"@ {
            Err(("zc "@ + VERSION@, EXIT_OK))
        } else if a == "--with-lock"@ {
            spec_parse_from(argv, i + 1, (true, o.1, o.2, o.3, o.4, o.5, o.6, o.7), style)
        } else if a == "--flat"@ {
            spec_parse_from(argv, i + 1, (o.0, o.1, o.2, o.3, GroupMode::Flat, o.5, o.6, o.7), style)
        } else if a == "--by-type"@ {
            spec_parse_from(argv, i + 1, (o.0, o.1, o.2, o.3, GroupMode::Type, o.5, o.6, o.7), style)
        } else if a == "--with-values"@ {
            spec_parse_from(argv, i + 1, (o.0, true, o.2, o.3, o.4, o.5, o.6, o.7), style)
        } else if a == "--json"@ {
            spec_parse_from(argv, i + 1, (o.0, o.1, true, o.3, o.4, o.5, o.6, o.7), style)
        } else if a == "--changelog"@ {
            spec_parse_from(argv, i + 1, (o.0, o.1, o.2, true, o.4, o.5, o.6, o.7), style)
        } else if a == "--fail-on"@ {
            if i + 1 >= argv.len() {
                Err((spec_missing_value(style, "--fail-on"@), EXIT_USAGE))
            } else {
                match spec_fail_on(argv[i + 1]) {
                    Some(f) => spec_parse_from(argv, i + 2, (o.0, o.1, o.2, o.3, o.4, f, o.6, o.7), style),
                    None => Err((
                        usage_error(
                            style,
                            "invalid --fail-on value '"@ + argv[i + 1]
                                + "', expected breaking, api-breaking, error, or none"@,
                        ),
                        EXIT_USAGE,
                    )),
                }
            }
        } else if a == "--report"@ {
            if i + 1 >= argv.len() {
                Err((spec_missing_value(style, "--report"@), EXIT_USAGE))
            } else {
                spec_parse_from(argv, i + 2, (o.0, o.1, o.2, o.3, o.4, o.5, Some(argv[i + 1]), o.7), style)
            }
        } else if a == "--changelog-file"@ {
            if i + 1 >= argv.len() {
                Err((spec_missing_value(style, "--changelog-file"@), EXIT_USAGE))
            } else {
                spec_parse_from(argv, i + 2, (o.0, o.1, o.2, o.3, o.4, o.5, o.6, Some(argv[i + 1])), style)
            }
        } else if a == "--"@ {
            Ok((o, argv.skip(i + 1)))
        } else if starts_with(a, "-"@) {
            Err((usage_error(style, "unknown option '"@ + a + "'"@), EXIT_USAGE))
        } else {
            Ok((o, argv.skip(i)))
        }
    }
}

/// The outcome of a whole command line: at most two positional refs.
pub open spec fn spec_parse_args(argv: Seq<Seq<char>>, style: Style) -> Result<
    (OptionsView, Seq<Seq<char>>),
    (Seq<char>, i32),
> {
    match spec_parse_from(argv, 0, default_options(), style) {
        Ok((o, p)) => if p.len() > 2 {
            Err((
                usage_error(style, "too many positional arguments, expected at most 2"@),
                EXIT_USAGE,
            ))
        } else {
            Ok((o, p))
        },
        Err(e) => Err(e),
    }
}

fn usage(style: &Style, message: &Vec<char>) -> (r: String)
    ensures
        r@ == usage_error(*style, message@),
{
    let mut out: Vec<char> = Vec::new();
    push_str_chars(&mut out, style.red);
    push_str_chars(&mut out, "error:");
    push_str_chars(&mut out, style.reset);
    push_str_chars(&mut out, " ");
    crate::text::extend_chars(&mut out, message);
    push_str_chars(&mut out, " (run with --help for usage)");
    assert(out@ =~= usage_error(*style, message@));
    string_of(&out)
}

fn rest_of(argv: &Vec<String>, from: usize) -> (r: Vec<String>)
    requires
        from <= argv.len(),
    ensures
        sviews(r@) == sviews(argv@).skip(from as int),
{
    let mut out: Vec<String> = Vec::new();
    let mut k = from;
    while k < argv.len()
        invariant
            from <= k <= argv.len(),
            sviews(out@) == sviews(argv@).subrange(from as int, k as int),
        decreases argv.len() - k,
    {
        let ghost before = out@;
        out.push(argv[k].clone());
        assert(sviews(out@) =~= sviews(before).push(sviews(argv@)[k as int]));
        assert(sviews(argv@).subrange(from as int, k + 1) == sviews(argv@).subrange(from as int, k as int).push(sviews(argv@)[k as int]));
        k += 1;
    }
    assert(sviews(argv@).subrange(from as int, argv.len() as int) == sviews(argv@).skip(from as int));
    out
}

/// Parses the command line after the program name.
pub fn parse_args(argv: Vec<String>, style: &Style) -> (r: Result<Args, (String, i32)>)
    ensures
        match r {
            Ok(args) => spec_parse_args(sviews(argv@), *style) == Ok::<(OptionsView, Seq<Seq<char>>), (Seq<char>, i32)>((options_view(args.opts), sviews(args.positional@))),
            Err((m, c)) => spec_parse_args(sviews(argv@), *style) == Err::<(OptionsView, Seq<Seq<char>>), (Seq<char>, i32)>((m@, c)),
        },
{
    let ghost av = sviews(argv@);
    let mut opts = Options {
        with_lock: false,
        with_values: false,
        json_mode: false,
        changelog_mode: false,
        group_mode: GroupMode::Mod,
        fail_on: FailOn::Breaking,
        report_path: None,
        changelog_path: None,
    };
    let mut positional: Vec<String> = Vec::new();
    let mut i: usize = 0;
    let mut stopped = false;
    while i < argv.len() && !stopped
        invariant
            i <= argv.len(),
            av == sviews(argv@),
            !stopped ==> positional@.len() == 0,
            !stopped ==> spec_parse_from(av, 0, default_options(), *style) == spec_parse_from(av, i as int, options_view(opts), *style),
            stopped ==> spec_parse_from(av, 0, default_options(), *style) == Ok::<(OptionsView, Seq<Seq<char>>), (Seq<char>, i32)>((options_view(opts), sviews(positional@))),
        decreases argv.len() - i + if stopped { 0int } else { 1int },
    {
        let a = argv[i].as_str();
        if str_eq(a, "-h") || str_eq(a, "--help") {
            return Err((help_text(), EXIT_OK));
        } else if str_eq(a, "-V") || str_eq(a, "--version") {
            let mut v: Vec<char> = chars_of("zc ");
            push_str_chars(&mut v, VERSION);
            return Err((string_of(&v), EXIT_OK));
        } else if str_eq(a, "--with-lock") {
            opts.with_lock = true;
            i += 1;
        } else if str_eq(a, "--flat") {
            opts.group_mode = GroupMode::Flat;
            i += 1;
        } else if str_eq(a, "--by-type") {
            opts.group_mode = GroupMode::Type;
            i += 1;
        } else if str_eq(a, "--with-values") {
            opts.with_values = true;
            i += 1;
        } else if str_eq(a, "--json") {
            opts.json_mode = true;
            i += 1;
        } else if str_eq(a, "--changelog") {
            opts.changelog_mode = true;
            i += 1;
        } else if str_eq(a, "--fail-on") {
            if i + 1 >= argv.len() {
                return Err((missing_value(style, "--fail-on"), EXIT_USAGE));
            }
            match FailOn::parse(argv[i + 1].as_str()) {
                Some(f) => {
                    opts.fail_on = f;
                    i += 2;
                },
                None => {
                    let mut m: Vec<char> = chars_of("invalid --fail-on value '");
                    push_str_chars(&mut m, argv[i + 1].as_str());
                    push_str_chars(&mut m, "', expected breaking, api-breaking, error, or none");
                    return Err((usage(style, &m), EXIT_USAGE));
                },
            }
        } else if str_eq(a, "--report") {
            if i + 1 >= argv.len() {
                return Err((missing_value(style, "--report"), EXIT_USAGE));
            }
            opts.report_path = Some(argv[i + 1].clone());
            i += 2;
        } else if str_eq(a, "--changelog-file") {
            if i + 1 >= argv.len() {
                return Err((missing_value(style, "--changelog-file"), EXIT_USAGE));
            }
            opts.changelog_path = Some(argv[i + 1].clone());
            i += 2;
        } else if str_eq(a, "--") {
            positional = rest_of(&argv, i + 1);
            stopped = true;
        } else if crate::text::has_prefix(&chars_of(a), &chars_of("-")) {
            let mut m: Vec<char> = chars_of("unknown option '");
            push_str_chars(&mut m, a);
            push_str_chars(&mut m, "'");
            return Err((usage(style, &m), EXIT_USAGE));
        } else {
            positional = rest_of(&argv, i);
            stopped = true;
        }
    }
    proof {
        if !stopped {
            assert(sviews(positional@) =~= Seq::<Seq<char>>::empty());
        }
    }
    if positional.len() > 2 {
        let m = chars_of("too many positional arguments, expected at most 2");
        return Err((usage(style, &m), EXIT_USAGE));
    }
    Ok(Args { opts, positional })
}

/// Options with another grouping mode.
pub open spec fn with_mode(o: OptionsView, g: GroupMode) -> OptionsView {
    (o.0, o.1, o.2, o.3, g, o.5, o.6, o.7)
}

/// Options with one of the four switches (`j`: lock, values, json, changelog) turned on.
pub open spec fn with_switch(o: OptionsView, j: int) -> OptionsView {
    (
        if j == 0 { true } else { o.0 },
        if j == 1 { true } else { o.1 },
        if j == 2 { true } else { o.2 },
        if j == 3 { true } else { o.3 },
        o.4,
        o.5,
        o.6,
        o.7,
    )
}

/// The flag that turns switch `j` on.
pub open spec fn switch_flag(j: int) -> Seq<char> {
    if j == 0 {
        "--with-lock"@
    } else if j == 1 {
        "--with-values"@
    } else if j == 2 {
        "--json"@
    } else {
        "--changelog"@
    }
}

/// A flag put in front of the arguments is read first, then the rest as before.
proof fn lemma_parse_shift(f: Seq<char>, argv: Seq<Seq<char>>, i: int, o: OptionsView, style: Style)
    requires
        0 <= i,
    ensures
        spec_parse_from(seq![f] + argv, i + 1, o, style) == spec_parse_from(argv, i, o, style),
    decreases argv.len() - i,
{
    let b = seq![f] + argv;
    if i < argv.len() {
        assert(b[i + 1] == argv[i]);
        assert(i + 2 < b.len() ==> b[i + 2] == argv[i + 1]);
        assert(b.skip(i + 2) =~= argv.skip(i + 1));
        assert(b.skip(i + 1 + 1) =~= argv.skip(i + 1));
        assert(b.skip(i + 1) =~= argv.skip(i));
        lemma_parse_shift(f, argv, i + 1, with_switch(o, 0), style);
        lemma_parse_shift(f, argv, i + 1, with_switch(o, 1), style);
        lemma_parse_shift(f, argv, i + 1, with_switch(o, 2), style);
        lemma_parse_shift(f, argv, i + 1, with_switch(o, 3), style);
        lemma_parse_shift(f, argv, i + 1, with_mode(o, GroupMode::Flat), style);
        lemma_parse_shift(f, argv, i + 1, with_mode(o, GroupMode::Type), style);
        if i + 1 < argv.len() {
            match spec_fail_on(argv[i + 1]) {
                Some(x) => {
                    lemma_parse_shift(f, argv, i + 2, (o.0, o.1, o.2, o.3, o.4, x, o.6, o.7), style);
                },
                None => {},
            }
            lemma_parse_shift(f, argv, i + 2, (o.0, o.1, o.2, o.3, o.4, o.5, Some(argv[i + 1]), o.7), style);
            lemma_parse_shift(f, argv, i + 2, (o.0, o.1, o.2, o.3, o.4, o.5, o.6, Some(argv[i + 1])), style);
        }
    } else {
        assert(i + 1 >= b.len());
    }
}

/// A switch already on stays on, and nothing read depends on it.
proof fn lemma_parse_switch(argv: Seq<Seq<char>>, i: int, o: OptionsView, j: int, style: Style)
    requires
        0 <= i,
        0 <= j < 4,
    ensures
        spec_parse_from(argv, i, with_switch(o, j), style) == match spec_parse_from(argv, i, o, style) {
            Ok((a, p)) => Ok((with_switch(a, j), p)),
            Err(e) => Err(e),
        },
    decreases argv.len() - i,
{
    let o2 = with_switch(o, j);
    if i < argv.len() {
        lemma_parse_switch(argv, i + 1, (true, o.1, o.2, o.3, o.4, o.5, o.6, o.7), j, style);
        lemma_parse_switch(argv, i + 1, (o.0, true, o.2, o.3, o.4, o.5, o.6, o.7), j, style);
        lemma_parse_switch(argv, i + 1, (o.0, o.1, true, o.3, o.4, o.5, o.6, o.7), j, style);
        lemma_parse_switch(argv, i + 1, (o.0, o.1, o.2, true, o.4, o.5, o.6, o.7), j, style);
        lemma_parse_switch(argv, i + 1, with_mode(o, GroupMode::Flat), j, style);
        lemma_parse_switch(argv, i + 1, with_mode(o, GroupMode::Type), j, style);
        assert(with_switch((true, o.1, o.2, o.3, o.4, o.5, o.6, o.7), j) == (true, o2.1, o2.2, o2.3, o2.4, o2.5, o2.6, o2.7));
        assert(with_switch((o.0, true, o.2, o.3, o.4, o.5, o.6, o.7), j) == (o2.0, true, o2.2, o2.3, o2.4, o2.5, o2.6, o2.7));
        assert(with_switch((o.0, o.1, true, o.3, o.4, o.5, o.6, o.7), j) == (o2.0, o2.1, true, o2.3, o2.4, o2.5, o2.6, o2.7));
        assert(with_switch((o.0, o.1, o.2, true, o.4, o.5, o.6, o.7), j) == (o2.0, o2.1, o2.2, true, o2.4, o2.5, o2.6, o2.7));
        assert(with_switch(with_mode(o, GroupMode::Flat), j) == with_mode(o2, GroupMode::Flat));
        assert(with_switch(with_mode(o, GroupMode::Type), j) == with_mode(o2, GroupMode::Type));
        if i + 1 < argv.len() {
            match spec_fail_on(argv[i + 1]) {
                Some(x) => {
                    lemma_parse_switch(argv, i + 2, (o.0, o.1, o.2, o.3, o.4, x, o.6, o.7), j, style);
                    assert(with_switch((o.0, o.1, o.2, o.3, o.4, x, o.6, o.7), j) == (o2.0, o2.1, o2.2, o2.3, o2.4, x, o2.6, o2.7));
                },
                None => {},
            }
            lemma_parse_switch(argv, i + 2, (o.0, o.1, o.2, o.3, o.4, o.5, Some(argv[i + 1]), o.7), j, style);
            lemma_parse_switch(argv, i + 2, (o.0, o.1, o.2, o.3, o.4, o.5, o.6, Some(argv[i + 1])), j, style);
            assert(with_switch((o.0, o.1, o.2, o.3, o.4, o.5, Some(argv[i + 1]), o.7), j) == (o2.0, o2.1, o2.2, o2.3, o2.4, o2.5, Some(argv[i + 1]), o2.7));
            assert(with_switch((o.0, o.1, o.2, o.3, o.4, o.5, o.6, Some(argv[i + 1])), j) == (o2.0, o2.1, o2.2, o2.3, o2.4, o2.5, o2.6, Some(argv[i + 1])));
        }
    }
}

/// Two option sets that differ only in their grouping mode parse alike, except that the
/// mode each ends with is its own, or the same one, set by a grouping flag, for both.
#[verifier::spinoff_prover]
#[verifier::rlimit(80)]
proof fn lemma_parse_mode(argv: Seq<Seq<char>>, i: int, o1: OptionsView, o2: OptionsView, style: Style)
    requires
        0 <= i,
        with_mode(o1, GroupMode::Mod) == with_mode(o2, GroupMode::Mod),
    ensures
        match (spec_parse_from(argv, i, o1, style), spec_parse_from(argv, i, o2, style)) {
            (Ok((a, p)), Ok((b, q))) => p == q && with_mode(a, GroupMode::Mod) == with_mode(b, GroupMode::Mod)
                && ((a.4 == o1.4 && b.4 == o2.4) || (a.4 == b.4 && a.4 != GroupMode::Mod)),
            (Err(e1), Err(e2)) => e1 == e2,
            _ => false,
        },
    decreases argv.len() - i,
{
    assert(o1.0 == o2.0 && o1.1 == o2.1 && o1.2 == o2.2 && o1.3 == o2.3 && o1.5 == o2.5 && o1.6 == o2.6 && o1.7 == o2.7);
    if i < argv.len() {
        lemma_parse_mode(argv, i + 1, (true, o1.1, o1.2, o1.3, o1.4, o1.5, o1.6, o1.7), (true, o2.1, o2.2, o2.3, o2.4, o2.5, o2.6, o2.7), style);
        lemma_parse_mode(argv, i + 1, (o1.0, true, o1.2, o1.3, o1.4, o1.5, o1.6, o1.7), (o2.0, true, o2.2, o2.3, o2.4, o2.5, o2.6, o2.7), style);
        lemma_parse_mode(argv, i + 1, (o1.0, o1.1, true, o1.3, o1.4, o1.5, o1.6, o1.7), (o2.0, o2.1, true, o2.3, o2.4, o2.5, o2.6, o2.7), style);
        lemma_parse_mode(argv, i + 1, (o1.0, o1.1, o1.2, true, o1.4, o1.5, o1.6, o1.7), (o2.0, o2.1, o2.2, true, o2.4, o2.5, o2.6, o2.7), style);
        lemma_parse_mode_fixed(argv, i + 1, with_mode(o1, GroupMode::Flat), style);
        lemma_parse_mode_fixed(argv, i + 1, with_mode(o1, GroupMode::Type), style);
        assert(with_mode(o1, GroupMode::Flat) == with_mode(o2, GroupMode::Flat));
        assert(with_mode(o1, GroupMode::Type) == with_mode(o2, GroupMode::Type));
        if i + 1 < argv.len() {
            match spec_fail_on(argv[i + 1]) {
                Some(x) => {
                    lemma_parse_mode(argv, i + 2, (o1.0, o1.1, o1.2, o1.3, o1.4, x, o1.6, o1.7), (o2.0, o2.1, o2.2, o2.3, o2.4, x, o2.6, o2.7), style);
                },
                None => {},
            }
            lemma_parse_mode(argv, i + 2, (o1.0, o1.1, o1.2, o1.3, o1.4, o1.5, Some(argv[i + 1]), o1.7), (o2.0, o2.1, o2.2, o2.3, o2.4, o2.5, Some(argv[i + 1]), o2.7), style);
            lemma_parse_mode(argv, i + 2, (o1.0, o1.1, o1.2, o1.3, o1.4, o1.5, o1.6, Some(argv[i + 1])), (o2.0, o2.1, o2.2, o2.3, o2.4, o2.5, o2.6, Some(argv[i + 1])), style);
        }
    }
}

/// Starting from a mode other than the default, the mode a parse ends with is never the
/// default: no flag sets it back.
proof fn lemma_parse_mode_fixed(argv: Seq<Seq<char>>, i: int, o: OptionsView, style: Style)
    requires
        0 <= i,
        o.4 != GroupMode::Mod,
    ensures
        spec_parse_from(argv, i, o, style) matches Ok((a, _)) ==> a.4 != GroupMode::Mod,
    decreases argv.len() - i,
{
    if i < argv.len() {
        lemma_parse_mode_fixed(argv, i + 1, (true, o.1, o.2, o.3, o.4, o.5, o.6, o.7), style);
        lemma_parse_mode_fixed(argv, i + 1, (o.0, true, o.2, o.3, o.4, o.5, o.6, o.7), style);
        lemma_parse_mode_fixed(argv, i + 1, (o.0, o.1, true, o.3, o.4, o.5, o.6, o.7), style);
        lemma_parse_mode_fixed(argv, i + 1, (o.0, o.1, o.2, true, o.4, o.5, o.6, o.7), style);
        lemma_parse_mode_fixed(argv, i + 1, with_mode(o, GroupMode::Flat), style);
        lemma_parse_mode_fixed(argv, i + 1, with_mode(o, GroupMode::Type), style);
        if i + 1 < argv.len() {
            match spec_fail_on(argv[i + 1]) {
                Some(x) => {
                    lemma_parse_mode_fixed(argv, i + 2, (o.0, o.1, o.2, o.3, o.4, x, o.6, o.7), style);
                },
                None => {},
            }
            lemma_parse_mode_fixed(argv, i + 2, (o.0, o.1, o.2, o.3, o.4, o.5, Some(argv[i + 1]), o.7), style);
            lemma_parse_mode_fixed(argv, i + 2, (o.0, o.1, o.2, o.3, o.4, o.5, o.6, Some(argv[i + 1])), style);
        }
    }
}

/// The option names read before the switches and grouping flags differ from them.
proof fn lemma_flag_names_differ()
    ensures
        "--json"@ != "--help"@,
        "--json"@ != "--flat"@,
        "--flat"@ != "--help"@,
        "--changelog"@ != "--with-lock"@,
        "--by-type"@ != "--version"@,
        "--fail-on"@ != "--version"@,
        "--fail-on"@ != "--by-type"@,
{
    reveal_strlit("--fail-on");
    reveal_strlit("--json");
    reveal_strlit("--help");
    reveal_strlit("--flat");
    reveal_strlit("--changelog");
    reveal_strlit("--with-lock");
    reveal_strlit("--by-type");
    reveal_strlit("--version");
    assert("--json"@[2] != "--help"@[2]);
    assert("--json"@[2] != "--flat"@[2]);
    assert("--flat"@[2] != "--help"@[2]);
    assert("--changelog"@[2] != "--with-lock"@[2]);
    assert("--by-type"@[2] != "--version"@[2]);
    assert("--fail-on"@[2] != "--version"@[2]);
    assert("--fail-on"@[2] != "--by-type"@[2]);
}

/// Each switch flag (`--with-lock`, `--with-values`, `--json`, `--changelog`) put in front of
/// a command line turns its switch on and changes nothing else: the line parses as before
/// with that switch on, or fails as before.
pub proof fn law_switch_flags(argv: Seq<Seq<char>>, j: int, style: Style)
    requires
        0 <= j < 4,
    ensures
        spec_parse_args(seq![switch_flag(j)] + argv, style) == match spec_parse_args(argv, style) {
            Ok((o, p)) => Ok((with_switch(o, j), p)),
            Err(e) => Err(e),
        },
{
    reveal_strlit("--with-lock");
    reveal_strlit("--with-values");
    reveal_strlit("--json");
    reveal_strlit("--changelog");
    reveal_strlit("-h");
    reveal_strlit("--help");
    reveal_strlit("-V");
    reveal_strlit("--version");
    reveal_strlit("--flat");
    reveal_strlit("--by-type");
    lemma_flag_names_differ();
    let b = seq![switch_flag(j)] + argv;
    let d = default_options();
    assert(b[0] == switch_flag(j));
    assert(0 < b.len());
    if j == 0 {
        assert(b[0] == "--with-lock"@);
        assert(spec_parse_from(b, 0, d, style) == spec_parse_from(b, 1, (true, d.1, d.2, d.3, d.4, d.5, d.6, d.7), style));
    } else if j == 1 {
        assert(b[0] == "--with-values"@);
        assert(spec_parse_from(b, 0, d, style) == spec_parse_from(b, 1, (d.0, true, d.2, d.3, d.4, d.5, d.6, d.7), style));
    } else if j == 2 {
        assert(b[0] == "--json"@);
        assert(spec_parse_from(b, 0, d, style) == spec_parse_from(b, 1, (d.0, d.1, true, d.3, d.4, d.5, d.6, d.7), style));
    } else {
        assert(b[0] == "--changelog"@);
        assert(spec_parse_from(b, 0, d, style) == spec_parse_from(b, 1, (d.0, d.1, d.2, true, d.4, d.5, d.6, d.7), style));
    }
    lemma_parse_shift(switch_flag(j), argv, 0, with_switch(d, j), style);
    lemma_parse_switch(argv, 0, d, j, style);
    assert(spec_parse_from(b, 0, d, style) == spec_parse_from(b, 1, with_switch(d, j), style));
}

/// A grouping flag (`--flat`, `--by-type`) put in front of a command line chooses the
/// grouping unless the rest of the line chooses one itself (the later flag wins); nothing
/// else changes, and a line that fails fails as before.
pub proof fn law_grouping_flags(argv: Seq<Seq<char>>, flat: bool, style: Style)
    ensures
        ({
            let flag = if flat { "--flat"@ } else { "--by-type"@ };
            let mode = if flat { GroupMode::Flat } else { GroupMode::Type };
            spec_parse_args(seq![flag] + argv, style) == match spec_parse_args(argv, style) {
                Ok((o, p)) => Ok((with_mode(o, if o.4 == GroupMode::Mod { mode } else { o.4 }), p)),
                Err(e) => Err(e),
            }
        }),
{
    reveal_strlit("--with-lock");
    reveal_strlit("--with-values");
    reveal_strlit("--json");
    reveal_strlit("--changelog");
    reveal_strlit("-h");
    reveal_strlit("--help");
    reveal_strlit("-V");
    reveal_strlit("--version");
    reveal_strlit("--flat");
    reveal_strlit("--by-type");
    let flag = if flat { "--flat"@ } else { "--by-type"@ };
    let mode = if flat { GroupMode::Flat } else { GroupMode::Type };
    lemma_flag_names_differ();
    let b = seq![flag] + argv;
    let d = default_options();
    assert(b[0] == flag);
    assert(0 < b.len());
    if flat {
        assert(b[0] == "--flat"@);
    } else {
        assert(b[0] == "--by-type"@);
    }
    lemma_parse_shift(flag, argv, 0, with_mode(d, mode), style);
    lemma_parse_mode(argv, 0, d, with_mode(d, mode), style);
    assert(spec_parse_from(b, 0, d, style) == spec_parse_from(b, 1, with_mode(d, mode), style));
    match (spec_parse_from(argv, 0, d, style), spec_parse_from(argv, 0, with_mode(d, mode), style)) {
        (Ok((a, p)), Ok((c, q))) => {
            assert(c == with_mode(a, if a.4 == GroupMode::Mod { mode } else { a.4 }));
        },
        _ => {},
    }
}

/// Options with another failure policy.
pub open spec fn with_fail_on(o: OptionsView, f: FailOn) -> OptionsView {
    (o.0, o.1, o.2, o.3, o.4, f, o.6, o.7)
}

/// Options with another report path (`c` 6) or changelog path (`c` 7).
pub open spec fn with_path(o: OptionsView, c: int, v: Option<Seq<char>>) -> OptionsView {
    (o.0, o.1, o.2, o.3, o.4, o.5, if c == 6 { v } else { o.6 }, if c == 7 { v } else { o.7 })
}

/// The option that sets path `c`.
pub open spec fn path_flag(c: int) -> Seq<char> {
    if c == 6 {
        "--report"@
    } else {
        "--changelog-file"@
    }
}

/// The policy a parse starts from is kept when no later argument is `--fail-on`.
proof fn lemma_parse_fail_on_kept(argv: Seq<Seq<char>>, i: int, o: OptionsView, f: FailOn, style: Style)
    requires
        0 <= i,
        forall|k: int| i <= k < argv.len() ==> argv[k] != "--fail-on"@,
    ensures
        spec_parse_from(argv, i, with_fail_on(o, f), style) == match spec_parse_from(argv, i, o, style) {
            Ok((a, p)) => Ok((with_fail_on(a, f), p)),
            Err(e) => Err(e),
        },
    decreases argv.len() - i,
{
    let o2 = with_fail_on(o, f);
    if i < argv.len() {
        lemma_parse_fail_on_kept(argv, i + 1, (true, o.1, o.2, o.3, o.4, o.5, o.6, o.7), f, style);
        lemma_parse_fail_on_kept(argv, i + 1, (o.0, true, o.2, o.3, o.4, o.5, o.6, o.7), f, style);
        lemma_parse_fail_on_kept(argv, i + 1, (o.0, o.1, true, o.3, o.4, o.5, o.6, o.7), f, style);
        lemma_parse_fail_on_kept(argv, i + 1, (o.0, o.1, o.2, true, o.4, o.5, o.6, o.7), f, style);
        lemma_parse_fail_on_kept(argv, i + 1, with_mode(o, GroupMode::Flat), f, style);
        lemma_parse_fail_on_kept(argv, i + 1, with_mode(o, GroupMode::Type), f, style);
        assert(with_fail_on(with_mode(o, GroupMode::Flat), f) == with_mode(o2, GroupMode::Flat));
        assert(with_fail_on(with_mode(o, GroupMode::Type), f) == with_mode(o2, GroupMode::Type));
        if i + 1 < argv.len() {
            lemma_parse_fail_on_kept(argv, i + 2, (o.0, o.1, o.2, o.3, o.4, o.5, Some(argv[i + 1]), o.7), f, style);
            lemma_parse_fail_on_kept(argv, i + 2, (o.0, o.1, o.2, o.3, o.4, o.5, o.6, Some(argv[i + 1])), f, style);
        }
    }
}

/// A path a parse starts from is kept when no later argument is the option that sets it.
proof fn lemma_parse_path_kept(
    argv: Seq<Seq<char>>,
    i: int,
    o: OptionsView,
    c: int,
    v: Option<Seq<char>>,
    style: Style,
)
    requires
        0 <= i,
        c == 6 || c == 7,
        forall|k: int| i <= k < argv.len() ==> argv[k] != path_flag(c),
    ensures
        spec_parse_from(argv, i, with_path(o, c, v), style) == match spec_parse_from(argv, i, o, style) {
            Ok((a, p)) => Ok((with_path(a, c, v), p)),
            Err(e) => Err(e),
        },
    decreases argv.len() - i,
{
    let o2 = with_path(o, c, v);
    if i < argv.len() {
        lemma_parse_path_kept(argv, i + 1, (true, o.1, o.2, o.3, o.4, o.5, o.6, o.7), c, v, style);
        lemma_parse_path_kept(argv, i + 1, (o.0, true, o.2, o.3, o.4, o.5, o.6, o.7), c, v, style);
        lemma_parse_path_kept(argv, i + 1, (o.0, o.1, true, o.3, o.4, o.5, o.6, o.7), c, v, style);
        lemma_parse_path_kept(argv, i + 1, (o.0, o.1, o.2, true, o.4, o.5, o.6, o.7), c, v, style);
        lemma_parse_path_kept(argv, i + 1, with_mode(o, GroupMode::Flat), c, v, style);
        lemma_parse_path_kept(argv, i + 1, with_mode(o, GroupMode::Type), c, v, style);
        assert(with_path(with_mode(o, GroupMode::Flat), c, v) == with_mode(o2, GroupMode::Flat));
        assert(with_path(with_mode(o, GroupMode::Type), c, v) == with_mode(o2, GroupMode::Type));
        if i + 1 < argv.len() {
            match spec_fail_on(argv[i + 1]) {
                Some(x) => {
                    lemma_parse_path_kept(argv, i + 2, (o.0, o.1, o.2, o.3, o.4, x, o.6, o.7), c, v, style);
                },
                None => {},
            }
            if c == 6 {
                lemma_parse_path_kept(argv, i + 2, (o.0, o.1, o.2, o.3, o.4, o.5, o.6, Some(argv[i + 1])), c, v, style);
            } else {
                lemma_parse_path_kept(argv, i + 2, (o.0, o.1, o.2, o.3, o.4, o.5, Some(argv[i + 1]), o.7), c, v, style);
            }
        }
    }
}

/// Two arguments put in front are read first, then the rest as before.
proof fn lemma_parse_shift2(a: Seq<char>, b: Seq<char>, argv: Seq<Seq<char>>, o: OptionsView, style: Style)
    ensures
        spec_parse_from(seq![a, b] + argv, 2, o, style) == spec_parse_from(argv, 0, o, style),
{
    assert(seq![a, b] + argv =~= seq![a] + (seq![b] + argv));
    lemma_parse_shift(a, seq![b] + argv, 1, o, style);
    lemma_parse_shift(b, argv, 0, o, style);
}

/// `--fail-on` with a policy, put in front of a command line that does not name one itself,
/// sets that policy and changes nothing else; an unknown policy is a usage error (exit 64).
pub proof fn law_fail_on_flag(argv: Seq<Seq<char>>, x: Seq<char>, style: Style)
    requires
        !argv.contains("--fail-on"@),
    ensures
        ({
            let r = spec_parse_args(seq!["--fail-on"@, x] + argv, style);
            match spec_fail_on(x) {
                None => r is Err && r->Err_0.1 == 64,
                Some(f) => r == match spec_parse_args(argv, style) {
                    Ok((o, p)) => Ok((with_fail_on(o, f), p)),
                    Err(e) => Err(e),
                },
            }
        }),
{
    reveal_strlit("--with-lock");
    reveal_strlit("--with-values");
    reveal_strlit("--json");
    reveal_strlit("--changelog");
    reveal_strlit("-h");
    reveal_strlit("--help");
    reveal_strlit("-V");
    reveal_strlit("--version");
    reveal_strlit("--flat");
    reveal_strlit("--by-type");
    reveal_strlit("--fail-on");
    lemma_flag_names_differ();
    let b = seq!["--fail-on"@, x] + argv;
    let d = default_options();
    assert(b[0] == "--fail-on"@ && b[1] == x && b.len() >= 2);
    assert forall|k: int| 0 <= k < argv.len() implies argv[k] != "--fail-on"@ by {
        if argv[k] == "--fail-on"@ {
            assert(argv.contains("--fail-on"@));
        }
    }
    match spec_fail_on(x) {
        Some(f) => {
            assert(spec_parse_from(b, 0, d, style) == spec_parse_from(b, 2, with_fail_on(d, f), style));
            lemma_parse_shift2("--fail-on"@, x, argv, with_fail_on(d, f), style);
            lemma_parse_fail_on_kept(argv, 0, d, f, style);
        },
        None => {},
    }
}

/// `--report PATH` or `--changelog-file PATH`, put in front of a command line that does not
/// name that option itself, sets that path and changes nothing else; either option without
/// a value is a usage error (exit 64).
pub proof fn law_path_options(argv: Seq<Seq<char>>, c: int, path: Seq<char>, style: Style)
    requires
        c == 6 || c == 7,
        !argv.contains(path_flag(c)),
    ensures
        spec_parse_args(seq![path_flag(c), path] + argv, style) == match spec_parse_args(argv, style) {
            Ok((o, p)) => Ok((with_path(o, c, Some(path)), p)),
            Err(e) => Err(e),
        },
        ({
            let r = spec_parse_args(seq![path_flag(c)], style);
            r is Err && r->Err_0.1 == 64
        }),
{
    reveal_strlit("--with-lock");
    reveal_strlit("--with-values");
    reveal_strlit("--json");
    reveal_strlit("--changelog");
    reveal_strlit("-h");
    reveal_strlit("--help");
    reveal_strlit("-V");
    reveal_strlit("--version");
    reveal_strlit("--flat");
    reveal_strlit("--by-type");
    reveal_strlit("--fail-on");
    reveal_strlit("--report");
    reveal_strlit("--changelog-file");
    let flag = path_flag(c);
    let b = seq![flag, path] + argv;
    let d = default_options();
    assert(b[0] == flag && b[1] == path && b.len() >= 2);
    assert forall|k: int| 0 <= k < argv.len() implies argv[k] != flag by {
        if argv[k] == flag {
            assert(argv.contains(flag));
        }
    }
    let one = seq![flag];
    assert(one[0] == flag && one.len() == 1);
    if c == 6 {
        assert(spec_parse_from(b, 0, d, style) == spec_parse_from(b, 2, with_path(d, c, Some(path)), style));
    } else {
        assert(spec_parse_from(b, 0, d, style) == spec_parse_from(b, 2, with_path(d, c, Some(path)), style));
    }
    lemma_parse_shift2(flag, path, argv, with_path(d, c, Some(path)), style);
    lemma_parse_path_kept(argv, 0, d, c, Some(path), style);
}

/// `-h`/`--help` first prints the help and exits 0, whatever follows; `-V`/`--version` first
/// prints `zc ` and the version and exits 0.
pub proof fn law_help_and_version(argv: Seq<Seq<char>>, style: Style)
    ensures
        spec_parse_args(seq!["-h"@] + argv, style) == Err::<(OptionsView, Seq<Seq<char>>), (Seq<char>, i32)>((HELP@, 0i32)),
        spec_parse_args(seq!["--help"@] + argv, style) == Err::<(OptionsView, Seq<Seq<char>>), (Seq<char>, i32)>((HELP@, 0i32)),
        ({
            let r = spec_parse_args(seq!["-V"@] + argv, style);
            r is Err && r->Err_0.1 == 0 && starts_with(r->Err_0.0, "zc "@)
        }),
        ({
            let r = spec_parse_args(seq!["--version"@] + argv, style);
            r is Err && r->Err_0.1 == 0 && starts_with(r->Err_0.0, "zc "@)
        }),
{
    reveal_strlit("-h");
    reveal_strlit("--help");
    reveal_strlit("-V");
    reveal_strlit("--version");
    reveal_strlit("zc ");
    assert(("zc "@ + VERSION@).take(3) =~= "zc "@);
    assert("-V"@[1] != "-h"@[1]);
    assert((seq!["-h"@] + argv)[0] == "-h"@);
    assert((seq!["--help"@] + argv)[0] == "--help"@);
    assert((seq!["-V"@] + argv)[0] == "-V"@);
    assert((seq!["--version"@] + argv)[0] == "--version"@);
}

/// Arguments that are all refs (none starts with `-`) parse to the default options
/// (no lock, no values, no JSON, no changelog, module grouping, fail on any break, no
/// paths) when there are at most two of them, and to a usage error (exit 64) otherwise.
pub proof fn law_refs_only(argv: Seq<Seq<char>>, style: Style)
    requires
        forall|k: int| 0 <= k < argv.len() ==> !starts_with(#[trigger] argv[k], "-"@),
    ensures
        argv.len() <= 2 ==> spec_parse_args(argv, style) == Ok::<(OptionsView, Seq<Seq<char>>), (Seq<char>, i32)>((
            (false, false, false, false, GroupMode::Mod, FailOn::Breaking, None, None),
            argv,
        )),
        argv.len() > 2 ==> spec_parse_args(argv, style) is Err && spec_parse_args(argv, style)->Err_0.1 == 64,
{
    reveal_strlit("-");
    if argv.len() > 0 {
        let a = argv[0];
        assert(!starts_with(a, "-"@));
        assert(a != "-h"@ && a != "--help"@ && a != "-V"@ && a != "--version"@ && a != "--with-lock"@
            && a != "--flat"@ && a != "--by-type"@ && a != "--with-values"@ && a != "--json"@
            && a != "--changelog"@ && a != "--fail-on"@ && a != "--report"@ && a != "--changelog-file"@
            && a != "--"@) by {
            reveal_strlit("-h");
            reveal_strlit("--help");
            reveal_strlit("-V");
            reveal_strlit("--version");
            reveal_strlit("--with-lock");
            reveal_strlit("--flat");
            reveal_strlit("--by-type");
            reveal_strlit("--with-values");
            reveal_strlit("--json");
            reveal_strlit("--changelog");
            reveal_strlit("--fail-on");
            reveal_strlit("--report");
            reveal_strlit("--changelog-file");
            reveal_strlit("--");
            if a.len() > 0 && a[0] == '-' {
                assert(a.take(1) =~= "-"@);
            }
            assert(a.len() == 0 || a[0] != '-');
        }
        assert(argv.skip(0) =~= argv);
        assert(spec_parse_from(argv, 0, default_options(), style) == Ok::<(OptionsView, Seq<Seq<char>>), (Seq<char>, i32)>((default_options(), argv)));
    } else {
        assert(spec_parse_from(argv, 0, default_options(), style) == Ok::<(OptionsView, Seq<Seq<char>>), (Seq<char>, i32)>((default_options(), Seq::empty())));
        assert(argv =~= Seq::<Seq<char>>::empty());
    }
}

} // verus!
