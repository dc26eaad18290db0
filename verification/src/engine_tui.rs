//! Command-line arguments of the headless test runner.
use crate::path_text::text_eq;
use vstd::prelude::*;

verus! {

/// The runner's usage text.
pub const USAGE: &'static str = "engine_tui - headless engine test runner\n\nUSAGE:\n    engine_tui --test <profile.json> [--engine <engine.json>]\n\nOPTIONS:\n    -t, --test <path>      JSON test profile to run (required)\n    -e, --engine <path>    Engine definition JSON (defaults to the bundled GN250)\n    -h, --help             Show this help\n";

/// The paths named on the command line.
#[derive(Debug, Clone, PartialEq, Eq)]
pub struct Args {
    pub test_path: Option<String>,
    pub engine_path: Option<String>,
}

/// What the command line asks for.
#[derive(Debug, Clone, PartialEq, Eq)]
pub enum Invocation {
    /// Show the usage text and stop.
    Help,
    /// Run with the given paths.
    Run(Args),
}

/// The text of an optional string.
pub open spec fn opt_text(o: Option<String>) -> Option<Seq<char>> {
    match o {
        Some(s) => Some(s@),
        None => None,
    }
}

/// What the arguments from index `i` on give, with the paths seen so far:
/// `Ok(None)` asks for help, `Ok(Some(..))` gives the test and engine paths,
/// `Err` gives the message.
pub open spec fn parse_from(
    raw: Seq<Seq<char>>,
    i: int,
    test: Option<Seq<char>>,
    engine: Option<Seq<char>>,
) -> Result<Option<(Option<Seq<char>>, Option<Seq<char>>)>, Seq<char>>
    decreases raw.len() - i,
{
    if i < 0 || i >= raw.len() {
        Ok(Some((test, engine)))
    } else {
        let flag = raw[i];
        if flag == "-h"@ || flag == "--help"@ {
            Ok(None)
        } else if flag == "-t"@ || flag == "--test"@ {
            if i + 1 < raw.len() {
                parse_from(raw, i + 2, Some(raw[i + 1]), engine)
            } else {
                Err(flag + " requires a path argument"@)
            }
        } else if flag == "-e"@ || flag == "--engine"@ {
            if i + 1 < raw.len() {
                parse_from(raw, i + 2, test, Some(raw[i + 1]))
            } else {
                Err(flag + " requires a path argument"@)
            }
        } else {
            Err("unrecognized argument: "@ + flag)
        }
    }
}

/// The texts of the arguments.
pub open spec fn arg_texts(raw: Seq<String>) -> Seq<Seq<char>> {
    raw.map_values(|s: String| s@)
}

/// True when `r` is what `parse_from` gives.
pub open spec fn parse_matches(
    r: Result<Invocation, String>,
    spec_result: Result<Option<(Option<Seq<char>>, Option<Seq<char>>)>, Seq<char>>,
) -> bool {
    match spec_result {
        Ok(None) => r matches Ok(Invocation::Help),
        Ok(Some((test, engine))) => r matches Ok(Invocation::Run(args)) && opt_text(args.test_path)
            == test && opt_text(args.engine_path) == engine,
        Err(message) => r matches Err(m) && m@ == message,
    }
}

/// Parse the command-line arguments that follow the program name. A later
/// `--test` or `--engine` replaces an earlier one; `-h`/`--help` asks for the
/// usage text as soon as it is reached.
pub fn parse_args(raw: &Vec<String>) -> (r: Result<Invocation, String>)
    ensures
        parse_matches(r, parse_from(arg_texts(raw@), 0, None, None)),
{
    let ghost texts = arg_texts(raw@);
    let mut test_path: Option<String> = None;
    let mut engine_path: Option<String> = None;
    let mut i: usize = 0;
    while i < raw.len()
        invariant
            texts == arg_texts(raw@),
            i <= raw.len() + 1,
            parse_from(texts, i as int, opt_text(test_path), opt_text(engine_path)) == parse_from(
                texts,
                0,
                None,
                None,
            ),
        decreases raw.len() + 1 - i,
    {
        let flag = &raw[i];
        assert(texts[i as int] == flag@);
        if text_eq(flag.as_str(), "-h") || text_eq(flag.as_str(), "--help") {
            return Ok(Invocation::Help);
        } else if text_eq(flag.as_str(), "-t") || text_eq(flag.as_str(), "--test") {
            if i + 1 < raw.len() {
                assert(texts[i + 1] == raw[i + 1]@);
                test_path = Some(raw[i + 1].clone());
            } else {
                return Err(flag.clone().concat(" requires a path argument"));
            }
        } else if text_eq(flag.as_str(), "-e") || text_eq(flag.as_str(), "--engine") {
            if i + 1 < raw.len() {
                assert(texts[i + 1] == raw[i + 1]@);
                engine_path = Some(raw[i + 1].clone());
            } else {
                return Err(flag.clone().concat(" requires a path argument"));
            }
        } else {
            return Err(String::from_str("unrecognized argument: ").concat(flag.as_str()));
        }
        i += 2;
    }
    Ok(Invocation::Run(Args { test_path, engine_path }))
}

/// The test profile path, which the runner requires: without one the error
/// names the missing option and repeats the usage text.
pub fn required_test_path(args: &Args) -> (r: Result<String, String>)
    ensures
        match args.test_path {
            Some(p) => r matches Ok(t) && t@ == p@,
            None => r matches Err(m) && m@ == "missing required --test argument\n\n"@ + USAGE@,
        },
{
    match &args.test_path {
        Some(p) => Ok(p.clone()),
        None => Err(String::from_str("missing required --test argument\n\n").concat(USAGE)),
    }
}

/// The six flag texts are different texts.
proof fn lemma_flags_distinct()
    ensures
        "-h"@ != "-t"@ && "-h"@ != "-e"@ && "-t"@ != "-e"@,
        "--help"@ != "--test"@,
        "-h"@.len() == 2 && "-t"@.len() == 2 && "-e"@.len() == 2,
        "--help"@.len() == 6 && "--test"@.len() == 6 && "--engine"@.len() == 8,
{
    reveal_strlit("-h");
    reveal_strlit("--help");
    reveal_strlit("-t");
    reveal_strlit("--test");
    reveal_strlit("-e");
    reveal_strlit("--engine");
    assert("-h"@[1] != "-t"@[1]);
    assert("-h"@[1] != "-e"@[1]);
    assert("-t"@[1] != "-e"@[1]);
    assert("--help"@[2] != "--test"@[2]);
}

/// What is read from index `k` on depends only on the arguments from `k` on.
pub proof fn lemma_parse_reads_onward(
    a: Seq<Seq<char>>,
    b: Seq<Seq<char>>,
    k: int,
    test: Option<Seq<char>>,
    engine: Option<Seq<char>>,
)
    requires
        a.len() == b.len(),
        0 <= k,
        forall|j: int| k <= j < a.len() ==> a[j] == b[j],
    ensures
        parse_from(a, k, test, engine) == parse_from(b, k, test, engine),
    decreases a.len() - k,
{
    if k < a.len() {
        assert(a[k] == b[k]);
        if k + 1 < a.len() {
            assert(a[k + 1] == b[k + 1]);
            lemma_parse_reads_onward(a, b, k + 2, test, engine);
            lemma_parse_reads_onward(a, b, k + 2, Some(a[k + 1]), engine);
            lemma_parse_reads_onward(a, b, k + 2, test, Some(a[k + 1]));
        }
    }
}

/// The short and long forms of each flag mean the same wherever a flag is
/// read: `-h` and `--help` ask for help, and `-t`/`--test` and `-e`/`--engine`
/// followed by a value set the same path and read on in the same way.
pub proof fn lemma_short_and_long_flags_agree(
    raw: Seq<Seq<char>>,
    i: int,
    test: Option<Seq<char>>,
    engine: Option<Seq<char>>,
)
    requires
        0 <= i < raw.len(),
    ensures
        parse_from(raw.update(i, "-h"@), i, test, engine) == Ok::<
            Option<(Option<Seq<char>>, Option<Seq<char>>)>,
            Seq<char>,
        >(None),
        parse_from(raw.update(i, "--help"@), i, test, engine) == Ok::<
            Option<(Option<Seq<char>>, Option<Seq<char>>)>,
            Seq<char>,
        >(None),
        i + 1 < raw.len() ==> parse_from(raw.update(i, "-t"@), i, test, engine) == parse_from(
            raw.update(i, "--test"@),
            i,
            test,
            engine,
        ),
        i + 1 < raw.len() ==> parse_from(raw.update(i, "-t"@), i, test, engine) == parse_from(
            raw,
            i + 2,
            Some(raw[i + 1]),
            engine,
        ),
        i + 1 < raw.len() ==> parse_from(raw.update(i, "-e"@), i, test, engine) == parse_from(
            raw.update(i, "--engine"@),
            i,
            test,
            engine,
        ),
        i + 1 < raw.len() ==> parse_from(raw.update(i, "-e"@), i, test, engine) == parse_from(
            raw,
            i + 2,
            test,
            Some(raw[i + 1]),
        ),
{
    lemma_flags_distinct();
    if i + 1 < raw.len() {
        assert(raw.update(i, "-t"@)[i] == "-t"@ && raw.update(i, "--test"@)[i] == "--test"@);
        assert(raw.update(i, "-e"@)[i] == "-e"@ && raw.update(i, "--engine"@)[i] == "--engine"@);
        assert(raw.update(i, "-t"@)[i + 1] == raw[i + 1] && raw.update(i, "--test"@)[i + 1] == raw[i + 1]);
        assert(raw.update(i, "-e"@)[i + 1] == raw[i + 1] && raw.update(i, "--engine"@)[i + 1] == raw[i + 1]);
        lemma_parse_reads_onward(raw.update(i, "-t"@), raw, i + 2, Some(raw[i + 1]), engine);
        lemma_parse_reads_onward(raw.update(i, "--test"@), raw, i + 2, Some(raw[i + 1]), engine);
        lemma_parse_reads_onward(raw.update(i, "-e"@), raw, i + 2, test, Some(raw[i + 1]));
        lemma_parse_reads_onward(raw.update(i, "--engine"@), raw, i + 2, test, Some(raw[i + 1]));
    }
}

/// A test profile path and an engine path given in either form are taken,
/// and a later path replaces an earlier one.
pub proof fn lemma_paths_are_taken(p: Seq<char>, q: Seq<char>)
    ensures
        parse_from(seq!["--engine"@, p], 0, None, None) == Ok::<_, Seq<char>>(Some((None::<Seq<char>>, Some(p)))),
        parse_from(seq!["-e"@, p], 0, None, None) == Ok::<_, Seq<char>>(Some((None::<Seq<char>>, Some(p)))),
        parse_from(seq!["--test"@, p], 0, None, None) == Ok::<_, Seq<char>>(Some((Some(p), None::<Seq<char>>))),
        parse_from(seq!["-t"@, p], 0, None, None) == Ok::<_, Seq<char>>(Some((Some(p), None::<Seq<char>>))),
        parse_from(seq!["--test"@, p, "--engine"@, q], 0, None, None) == Ok::<_, Seq<char>>(Some((Some(p), Some(q)))),
        parse_from(seq!["-e"@, p, "--engine"@, q], 0, None, None) == Ok::<_, Seq<char>>(Some((None::<Seq<char>>, Some(q)))),
{
    lemma_flags_distinct();
    let a = seq!["--engine"@, p];
    let b = seq!["-e"@, p];
    let c = seq!["--test"@, p];
    let d = seq!["-t"@, p];
    let e = seq!["--test"@, p, "--engine"@, q];
    let f = seq!["-e"@, p, "--engine"@, q];
    assert(parse_from(a, 2, None, Some(p)) == Ok::<_, Seq<char>>(Some((None::<Seq<char>>, Some(p)))));
    assert(parse_from(b, 2, None, Some(p)) == Ok::<_, Seq<char>>(Some((None::<Seq<char>>, Some(p)))));
    assert(parse_from(c, 2, Some(p), None) == Ok::<_, Seq<char>>(Some((Some(p), None::<Seq<char>>))));
    assert(parse_from(d, 2, Some(p), None) == Ok::<_, Seq<char>>(Some((Some(p), None::<Seq<char>>))));
    assert(parse_from(e, 4, Some(p), Some(q)) == Ok::<_, Seq<char>>(Some((Some(p), Some(q)))));
    assert(e[2] == "--engine"@ && e[3] == q);
    assert(parse_from(e, 2, Some(p), None) == parse_from(e, 4, Some(p), Some(q)));
    assert(parse_from(f, 4, None, Some(q)) == Ok::<_, Seq<char>>(Some((None::<Seq<char>>, Some(q)))));
    assert(f[2] == "--engine"@ && f[3] == q);
    assert(parse_from(f, 2, None, Some(p)) == parse_from(f, 4, None, Some(q)));
}

} // verus!
