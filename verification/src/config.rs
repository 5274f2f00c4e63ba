//! The settings of a run, and how they are read from text.
//!
//! Each setting has a default. Text from the environment replaces the
//! default, and a word on the command line replaces that; text that is not a
//! number is passed over in silence, and the value that stood before stays.

use vstd::prelude::*;
use vstd::string::is_ascii_spec_bytes;

verus! {

/// The settings of a run: the size of the grid, the number of ticks after
/// which the simulation stops, and the pause between two ticks in
/// milliseconds.
pub struct Config {
    pub max_x: usize,
    pub max_y: usize,
    pub iterations: usize,
    pub interval: usize,
}

/// The number of columns where nothing else is said.
pub const DEFAULT_COLUMNS: usize = 20;

/// The number of rows where nothing else is said.
pub const DEFAULT_ROWS: usize = 20;

/// The number of ticks where nothing else is said.
pub const DEFAULT_ITERATIONS: usize = 1000;

/// The pause between ticks where nothing else is said.
pub const DEFAULT_INTERVAL: usize = 0;

/// The plus sign, as a byte.
const PLUS: u8 = 43;

/// The digit `0`, as a byte.
pub const DIGIT_ZERO: u8 = 48;

/// The digit `9`, as a byte.
const DIGIT_NINE: u8 = 57;

/// Whether `c` is one of the digits `0` to `9`.
pub open spec fn is_digit(c: char) -> bool {
    '0' <= c <= '9'
}

/// The number that the decimal digits `digits` spell.
pub open spec fn number(digits: Seq<char>) -> nat
    decreases digits.len(),
{
    if digits.len() == 0 {
        0
    } else {
        10 * number(digits.drop_last()) + (digits.last() as u8 - DIGIT_ZERO) as nat
    }
}

/// Whether `text` is made of digits alone.
pub open spec fn all_digits(text: Seq<char>) -> bool {
    forall|k: int| 0 <= k < text.len() ==> is_digit(#[trigger] text[k])
}

/// What is left of `text` without a leading plus sign.
pub open spec fn unsigned(text: Seq<char>) -> Seq<char> {
    if text.len() > 0 && text[0] == '+' {
        text.drop_first()
    } else {
        text
    }
}

/// The number that `text` stands for: `text` is an optional plus sign and then
/// one or more digits, and nothing else, and the number fits the machine.
pub open spec fn parsed(text: Seq<char>) -> Option<usize> {
    let digits = unsigned(text);
    if digits.len() > 0 && all_digits(digits) && number(digits) <= usize::MAX {
        Some(number(digits) as usize)
    } else {
        None
    }
}

/// The value of a setting: what `text` stands for where it is there and is a
/// number, else `fallback`.
pub open spec fn chosen(text: Option<Seq<char>>, fallback: usize) -> usize {
    match text {
        Some(t) => match parsed(t) {
            Some(v) => v,
            None => fallback,
        },
        None => fallback,
    }
}

/// The text of an optional string.
pub open spec fn text_of(source: Option<String>) -> Option<Seq<char>> {
    match source {
        Some(s) => Some(s@),
        None => None,
    }
}

/// The `k`-th word of a command line, where it has that many.
pub open spec fn word(args: Seq<String>, k: int) -> Option<Seq<char>> {
    if 0 <= k < args.len() {
        Some(args[k]@)
    } else {
        None
    }
}

/// The settings that the environment and the command line give.
pub open spec fn resolved(
    lines: Option<Seq<char>>,
    columns: Option<Seq<char>>,
    ants: Option<Seq<char>>,
    interval: Option<Seq<char>>,
    args: Seq<String>,
) -> Config {
    Config {
        max_x: chosen(word(args, 1), chosen(columns, DEFAULT_COLUMNS)),
        max_y: chosen(word(args, 2), chosen(lines, DEFAULT_ROWS)),
        iterations: chosen(word(args, 3), chosen(ants, DEFAULT_ITERATIONS)),
        interval: chosen(word(args, 4), chosen(interval, DEFAULT_INTERVAL)),
    }
}

/// A number is no smaller than what its leading digits spell.
proof fn lemma_number_grows(digits: Seq<char>, k: int)
    requires
        0 <= k <= digits.len(),
    ensures
        number(digits.take(k)) <= number(digits),
    decreases digits.len() - k,
{
    if k == digits.len() {
        assert(digits.take(k) =~= digits);
    } else {
        lemma_number_grows(digits, k + 1);
        assert(digits.take(k + 1).drop_last() =~= digits.take(k));
    }
}

/// Reads a number from `text`, as `str::parse::<usize>` does: an optional
/// plus sign, then decimal digits and nothing else. Anything else, and a
/// number too large for the machine, is no number.
pub fn parse_number(text: &str) -> (value: Option<usize>)
    ensures
        value == parsed(text@),
{
    broadcast use is_ascii_spec_bytes;

    if !text.is_ascii() {
        proof {
            let k = choose|k: int| 0 <= k < text@.len() && !('\0' <= #[trigger] text@[k] <= '\u{7f}');
            if k == 0 {
                assert(!is_digit(unsigned(text@)[0]));
            } else if text@[0] == '+' {
                assert(!is_digit(unsigned(text@)[k - 1]));
            } else {
                assert(!is_digit(unsigned(text@)[k]));
            }
        }
        return None;
    }
    let bytes: &[u8] = text.as_bytes();
    let start: usize = if bytes.len() > 0 && bytes[0] == PLUS {
        1
    } else {
        0
    };
    let ghost digits = unsigned(text@);
    if start == bytes.len() {
        return None;
    }
    let mut value: usize = 0;
    let mut k: usize = start;
    while k < bytes.len()
        invariant
            start <= k <= bytes.len(),
            bytes@.len() == text@.len(),
            forall|m: int| 0 <= m < text@.len() ==> #[trigger] bytes@[m] == text@[m] as u8,
            text.is_ascii(),
            digits == text@.skip(start as int),
            digits == unsigned(text@),
            all_digits(digits.take(k - start)),
            value == number(digits.take(k - start)),
        decreases bytes.len() - k,
    {
        let byte: u8 = bytes[k];
        assert(digits[k - start] == text@[k as int]);
        if byte < DIGIT_ZERO || byte > DIGIT_NINE {
            assert(!is_digit(digits[k - start]));
            return None;
        }
        proof {
            assert(digits.take(k + 1 - start).drop_last() =~= digits.take(k - start));
            lemma_number_grows(digits, k + 1 - start);
        }
        let scaled: usize = match value.checked_mul(10) {
            Some(v) => v,
            None => {
                return None;
            },
        };
        value = match scaled.checked_add((byte - DIGIT_ZERO) as usize) {
            Some(v) => v,
            None => {
                return None;
            },
        };
        k += 1;
    }
    assert(digits.take(k - start) =~= digits);
    Some(value)
}

/// The value of a setting: the number in `text` where it is there and is a
/// number, else `fallback`.
pub fn choose_setting(text: &Option<String>, fallback: usize) -> (value: usize)
    ensures
        value == chosen(text_of(*text), fallback),
{
    match text {
        Some(s) => match parse_number(s.as_str()) {
            Some(v) => v,
            None => fallback,
        },
        None => fallback,
    }
}

/// The value of a setting that the `k`-th word of the command line may
/// replace.
pub fn choose_argument(args: &Vec<String>, k: usize, fallback: usize) -> (value: usize)
    ensures
        value == chosen(word(args@, k as int), fallback),
{
    if k < args.len() {
        match parse_number(args[k].as_str()) {
            Some(v) => v,
            None => fallback,
        }
    } else {
        fallback
    }
}

impl Config {
    /// The settings of a run. `lines`, `columns`, `ants` and `interval` are
    /// what the environment says of the number of rows, of columns and of
    /// ticks and of the pause between ticks; `args` is the command line,
    /// whose words after the program's name give columns, rows, ticks and
    /// pause, in this order.
    pub fn resolve(
        lines: &Option<String>,
        columns: &Option<String>,
        ants: &Option<String>,
        interval: &Option<String>,
        args: &Vec<String>,
    ) -> (config: Config)
        ensures
            config == resolved(
                text_of(*lines),
                text_of(*columns),
                text_of(*ants),
                text_of(*interval),
                args@,
            ),
    {
        let rows: usize = choose_setting(lines, DEFAULT_ROWS);
        let cols: usize = choose_setting(columns, DEFAULT_COLUMNS);
        let ticks: usize = choose_setting(ants, DEFAULT_ITERATIONS);
        let pause: usize = choose_setting(interval, DEFAULT_INTERVAL);
        Config {
            max_x: choose_argument(args, 1, cols),
            max_y: choose_argument(args, 2, rows),
            iterations: choose_argument(args, 3, ticks),
            interval: choose_argument(args, 4, pause),
        }
    }
}

} // verus!
