//! The command line of the exhaust-pulse renderer: which options it names, in
//! what order, with which value texts, and the unsigned counts among them.
//!
//! Options come in `--name value` pairs. A help flag anywhere wins. An unknown
//! name, or a name with no value after it, ends the scan with an error; the
//! pairs before it are kept, since their values are checked first.
use crate::engine_tui::arg_texts;
use crate::path_text::{chars_of, text_eq};
use vstd::prelude::*;

verus! {

/// An option of the renderer that takes a value.
#[derive(PartialEq, Eq, Structural, Clone, Copy, Debug)]
pub enum RenderOption {
    Rpm,
    Throttle,
    Seconds,
    SimHz,
    Bins,
    WavSeconds,
    WavRate,
    Engine,
    Out,
}

/// One option of the command line with the text given for it.
#[derive(Debug, Clone, PartialEq, Eq)]
pub struct RenderSetting {
    pub option: RenderOption,
    pub value: String,
}

/// What a command line asks of the renderer.
#[derive(Debug, Clone, PartialEq, Eq)]
pub enum RenderScan {
    /// A help flag was given.
    Help,
    /// The options in command-line order, and the error that ended the scan
    /// early, if one did.
    Options { settings: Vec<RenderSetting>, error: Option<String> },
}

/// True when `arg` asks for help.
pub open spec fn is_help_flag(arg: Seq<char>) -> bool {
    arg == "-h"@ || arg == "--help"@
}

/// The option named by `key`, if it names one.
pub open spec fn render_option_named(key: Seq<char>) -> Option<RenderOption> {
    if key == "--rpm"@ {
        Some(RenderOption::Rpm)
    } else if key == "--throttle"@ {
        Some(RenderOption::Throttle)
    } else if key == "--seconds"@ {
        Some(RenderOption::Seconds)
    } else if key == "--sim-hz"@ {
        Some(RenderOption::SimHz)
    } else if key == "--bins"@ {
        Some(RenderOption::Bins)
    } else if key == "--wav-seconds"@ {
        Some(RenderOption::WavSeconds)
    } else if key == "--wav-rate"@ {
        Some(RenderOption::WavRate)
    } else if key == "--engine"@ {
        Some(RenderOption::Engine)
    } else if key == "--out"@ {
        Some(RenderOption::Out)
    } else {
        None
    }
}

/// The pairs read from `args` starting at `i`, and the error that stopped the
/// reading, if any.
pub open spec fn render_scan_from(args: Seq<Seq<char>>, i: int) -> (
    Seq<(RenderOption, Seq<char>)>,
    Option<Seq<char>>,
)
    decreases args.len() - i,
{
    if i < 0 || i >= args.len() {
        (Seq::empty(), None)
    } else {
        match render_option_named(args[i]) {
            None => (Seq::empty(), Some("unknown argument '"@ + args[i] + "'"@)),
            Some(option) => if i + 1 >= args.len() {
                (Seq::empty(), Some("missing value for "@ + args[i]))
            } else {
                let rest = render_scan_from(args, i + 2);
                (seq![(option, args[i + 1])] + rest.0, rest.1)
            },
        }
    }
}

/// The settings as plain values.
pub open spec fn settings_view(v: Seq<RenderSetting>) -> Seq<(RenderOption, Seq<char>)> {
    v.map_values(|s: RenderSetting| (s.option, s.value@))
}

fn option_named(key: &str) -> (r: Option<RenderOption>)
    ensures
        r == render_option_named(key@),
{
    if text_eq(key, "--rpm") {
        Some(RenderOption::Rpm)
    } else if text_eq(key, "--throttle") {
        Some(RenderOption::Throttle)
    } else if text_eq(key, "--seconds") {
        Some(RenderOption::Seconds)
    } else if text_eq(key, "--sim-hz") {
        Some(RenderOption::SimHz)
    } else if text_eq(key, "--bins") {
        Some(RenderOption::Bins)
    } else if text_eq(key, "--wav-seconds") {
        Some(RenderOption::WavSeconds)
    } else if text_eq(key, "--wav-rate") {
        Some(RenderOption::WavRate)
    } else if text_eq(key, "--engine") {
        Some(RenderOption::Engine)
    } else if text_eq(key, "--out") {
        Some(RenderOption::Out)
    } else {
        None
    }
}

/// Reads the renderer's command line (without the program name).
pub fn scan_render_args(raw: &Vec<String>) -> (r: RenderScan)
    ensures
        (exists|i: int| 0 <= i < raw.len() && is_help_flag(#[trigger] raw[i]@)) <==> r is Help,
        r matches RenderScan::Options { settings, error } ==> (settings_view(settings@), match error {
            Some(e) => Some(e@),
            None => None,
        }) == render_scan_from(arg_texts(raw@), 0),
{
    let mut h: usize = 0;
    while h < raw.len()
        invariant
            h <= raw.len(),
            forall|j: int| 0 <= j < h ==> !is_help_flag(#[trigger] raw[j]@),
        decreases raw.len() - h,
    {
        if text_eq(raw[h].as_str(), "-h") || text_eq(raw[h].as_str(), "--help") {
            return RenderScan::Help;
        }
        h += 1;
    }
    let ghost args = arg_texts(raw@);
    let mut settings: Vec<RenderSetting> = Vec::new();
    let mut index: usize = 0;
    while index < raw.len()
        invariant
            args == arg_texts(raw@),
            index <= raw.len(),
            forall|j: int| 0 <= j < raw.len() ==> !is_help_flag(#[trigger] raw[j]@),
            settings_view(settings@) + render_scan_from(args, index as int).0 == render_scan_from(
                args,
                0,
            ).0,
            render_scan_from(args, index as int).1 == render_scan_from(args, 0).1,
        decreases raw.len() - index,
    {
        let key = raw[index].as_str();
        let ghost before = settings@;
        match option_named(key) {
            None => {
                let error = String::from_str("unknown argument '").concat(key).concat("'");
                assert(settings_view(settings@) + Seq::<(RenderOption, Seq<char>)>::empty()
                    =~= settings_view(settings@));
                return RenderScan::Options { settings, error: Some(error) };
            },
            Some(option) => {
                if index + 1 >= raw.len() {
                    let error = String::from_str("missing value for ").concat(key);
                    assert(settings_view(settings@) + Seq::<(RenderOption, Seq<char>)>::empty()
                        =~= settings_view(settings@));
                    return RenderScan::Options { settings, error: Some(error) };
                }
                settings.push(RenderSetting { option, value: raw[index + 1].clone() });
                proof {
                    let rest = render_scan_from(args, index + 2);
                    assert(settings_view(settings@) =~= settings_view(before).push(
                        (option, args[index + 1]),
                    ));
                    assert(settings_view(settings@) + rest.0 =~= settings_view(before) + (seq![
                        (option, args[index + 1]),
                    ] + rest.0));
                }
                index += 2;
            },
        }
    }
    assert(settings_view(settings@) + Seq::<(RenderOption, Seq<char>)>::empty()
        =~= settings_view(settings@));
    RenderScan::Options { settings, error: None }
}


/// The option names of the renderer, each given once.
pub open spec fn render_option_names() -> Seq<Seq<char>> {
    seq![
        "--rpm"@,
        "--throttle"@,
        "--seconds"@,
        "--sim-hz"@,
        "--bins"@,
        "--wav-seconds"@,
        "--wav-rate"@,
        "--engine"@,
        "--out"@,
    ]
}

/// Each option is named by exactly one text and each name stands for its own
/// option: no two texts name the same option, a text names an option exactly
/// when it is one of the nine names, and every option has a name.
pub proof fn lemma_option_names_are_one_to_one(k1: Seq<char>, k2: Seq<char>, o: RenderOption)
    ensures
        render_option_named(k1) is Some && render_option_named(k1) == render_option_named(k2)
            ==> k1 == k2,
        render_option_named(k1) is Some <==> render_option_names().contains(k1),
        exists|i: int|
            0 <= i < render_option_names().len() && render_option_named(
                #[trigger] render_option_names()[i],
            ) == Some(o),
{
    let names = render_option_names();
    reveal_strlit("--rpm");
    reveal_strlit("--throttle");
    reveal_strlit("--seconds");
    reveal_strlit("--sim-hz");
    reveal_strlit("--bins");
    reveal_strlit("--wav-seconds");
    reveal_strlit("--wav-rate");
    reveal_strlit("--engine");
    reveal_strlit("--out");
    assert(names[0] == "--rpm"@);
    assert(names[1] == "--throttle"@);
    assert(names[2] == "--seconds"@);
    assert(names[3] == "--sim-hz"@);
    assert(names[4] == "--bins"@);
    assert(names[5] == "--wav-seconds"@);
    assert(names[6] == "--wav-rate"@);
    assert(names[7] == "--engine"@);
    assert(names[8] == "--out"@);
    assert("--rpm"@[2] != "--out"@[2]);
    assert("--rpm"@.len() == 5 && "--throttle"@.len() == 10 && "--seconds"@.len() == 9);
    assert("--sim-hz"@.len() == 8 && "--bins"@.len() == 6 && "--wav-seconds"@.len() == 13);
    assert("--wav-rate"@.len() == 10 && "--engine"@.len() == 8 && "--out"@.len() == 5);
    assert("--throttle"@[2] != "--wav-rate"@[2]);
    assert("--sim-hz"@[2] != "--engine"@[2]);
    if render_option_named(k1) is Some {
        if k1 == names[0] { assert(names.contains(k1)); }
        if k1 == names[1] { assert(names.contains(k1)); }
        if k1 == names[2] { assert(names.contains(k1)); }
        if k1 == names[3] { assert(names.contains(k1)); }
        if k1 == names[4] { assert(names.contains(k1)); }
        if k1 == names[5] { assert(names.contains(k1)); }
        if k1 == names[6] { assert(names.contains(k1)); }
        if k1 == names[7] { assert(names.contains(k1)); }
        if k1 == names[8] { assert(names.contains(k1)); }
    }
    match o {
        RenderOption::Rpm => assert(render_option_named(names[0]) == Some(o)),
        RenderOption::Throttle => assert(render_option_named(names[1]) == Some(o)),
        RenderOption::Seconds => assert(render_option_named(names[2]) == Some(o)),
        RenderOption::SimHz => assert(render_option_named(names[3]) == Some(o)),
        RenderOption::Bins => assert(render_option_named(names[4]) == Some(o)),
        RenderOption::WavSeconds => assert(render_option_named(names[5]) == Some(o)),
        RenderOption::WavRate => assert(render_option_named(names[6]) == Some(o)),
        RenderOption::Engine => assert(render_option_named(names[7]) == Some(o)),
        RenderOption::Out => assert(render_option_named(names[8]) == Some(o)),
    }
}

/// True when `c` is an ASCII decimal digit.
pub open spec fn is_decimal_digit(c: char) -> bool {
    '0' <= c && c <= '9'
}

/// True when every character of `d` is a decimal digit.
pub open spec fn all_decimal_digits(d: Seq<char>) -> bool {
    forall|i: int| 0 <= i < d.len() ==> is_decimal_digit(#[trigger] d[i])
}

/// The value of a text of decimal digits.
pub open spec fn decimal_value(d: Seq<char>) -> int
    decreases d.len(),
{
    if d.len() == 0 {
        0
    } else {
        decimal_value(d.drop_last()) * 10 + (d.last() as int - '0' as int)
    }
}

/// The digits of an unsigned number text: all of it, or what follows one
/// leading `+`.
pub open spec fn unsigned_digits(s: Seq<char>) -> Seq<char> {
    if s.len() > 0 && s[0] == '+' {
        s.drop_first()
    } else {
        s
    }
}

/// The number an unsigned decimal text stands for, when it is one and is no
/// greater than `max`: an optional `+`, then one or more digits.
pub open spec fn unsigned_value(s: Seq<char>, max: int) -> Option<int> {
    let d = unsigned_digits(s);
    if d.len() > 0 && all_decimal_digits(d) && decimal_value(d) <= max {
        Some(decimal_value(d))
    } else {
        None
    }
}

/// A text of digits is worth no less than any of its prefixes.
pub proof fn lemma_decimal_value_grows(d: Seq<char>, k: int)
    requires
        all_decimal_digits(d),
        0 <= k <= d.len(),
    ensures
        0 <= decimal_value(d.subrange(0, k)) <= decimal_value(d),
    decreases d.len(),
{
    if k < d.len() {
        let e = d.drop_last();
        assert(all_decimal_digits(e)) by {
            assert forall|i: int| 0 <= i < e.len() implies is_decimal_digit(#[trigger] e[i]) by {
                assert(e[i] == d[i]);
            }
        }
        lemma_decimal_value_grows(e, k);
        assert(e.subrange(0, k) =~= d.subrange(0, k));
        lemma_decimal_value_grows(e, e.len() as int);
        assert(e.subrange(0, e.len() as int) =~= e);
        assert(is_decimal_digit(d[d.len() - 1]));
    } else {
        assert(d.subrange(0, k) =~= d);
        if d.len() > 0 {
            let e = d.drop_last();
            assert(all_decimal_digits(e)) by {
                assert forall|i: int| 0 <= i < e.len() implies is_decimal_digit(#[trigger] e[i]) by {
                    assert(e[i] == d[i]);
                }
            }
            lemma_decimal_value_grows(e, e.len() as int);
            assert(e.subrange(0, e.len() as int) =~= e);
            assert(is_decimal_digit(d[d.len() - 1]));
        }
    }
}

/// Reads an unsigned decimal number no greater than `max`, as `str::parse`
/// reads unsigned integers: an optional `+`, then one or more digits.
pub fn parse_unsigned(text: &str, max: u64) -> (r: Option<u64>)
    ensures
        match r {
            Some(v) => unsigned_value(text@, max as int) == Some(v as int),
            None => unsigned_value(text@, max as int) is None,
        },
{
    let chars = chars_of(text);
    let n = chars.len();
    let start: usize = if n > 0 && chars[0] == '+' {
        1
    } else {
        0
    };
    let ghost d = unsigned_digits(text@);
    assert(d =~= chars@.subrange(start as int, n as int));
    if start == n {
        return None;
    }
    let mut value: u64 = 0;
    let mut i: usize = start;
    assert(chars@.subrange(start as int, start as int) =~= Seq::<char>::empty());
    while i < n
        invariant
            chars@ == text@,
            n == chars@.len(),
            start <= i <= n,
            d == chars@.subrange(start as int, n as int),
            d == unsigned_digits(text@),
            forall|j: int| start <= j < i ==> is_decimal_digit(#[trigger] chars@[j]),
            value as int == decimal_value(chars@.subrange(start as int, i as int)),
            value <= max,
        decreases n - i,
    {
        let c = chars[i];
        if !('0' <= c && c <= '9') {
            assert(!is_decimal_digit(d[i - start]));
            return None;
        }
        let digit: u64 = ((c as u32) - ('0' as u32)) as u64;
        let ghost next = chars@.subrange(start as int, i + 1);
        assert(next.drop_last() =~= chars@.subrange(start as int, i as int));
        assert(decimal_value(next) == value * 10 + digit);
        if digit > max || value > (max - digit) / 10 {
            assert(value * 10 + digit > max) by (nonlinear_arith)
                requires
                    digit > max || value > (max - digit) / 10,
                    digit <= 9,
            ;
            proof {
                if all_decimal_digits(d) {
                    lemma_decimal_value_grows(d, i + 1 - start);
                    assert(d.subrange(0, i + 1 - start) =~= next);
                }
            }
            return None;
        }
        assert(value * 10 + digit <= max) by (nonlinear_arith)
            requires
                digit <= max,
                value <= (max - digit) / 10,
        ;
        value = value * 10 + digit;
        i += 1;
    }
    assert(chars@.subrange(start as int, n as int) == d);
    assert(all_decimal_digits(d)) by {
        assert forall|j: int| 0 <= j < d.len() implies is_decimal_digit(#[trigger] d[j]) by {
            assert(d[j] == chars@[start + j]);
        }
    }
    Some(value)
}

} // verus!
