//! Command line of the demonstration: its options, and the run that they ask for.

use crate::text::{decimal, digit, texts};
use crate::types::{compute_evals_per_leaf, MIN_EVALS_PER_LEAF};
use crate::numeric::is_power_of_two;
use vstd::arithmetic::power2::is_pow2;
use vstd::prelude::*;

verus! {

/// An option's name on the command line.
#[derive(Clone, Copy, Debug, PartialEq, Eq, Structural)]
pub enum Flag {
    Codewords,
    Length,
    BatchSize,
    Epl,
    Zkvm,
    Parallel,
    Openings,
    Hybrid,
    InnerProofs,
    SpotCheck,
    Checks,
    Help,
}

/// The options.
#[derive(Clone, Copy, Debug)]
pub struct Options {
    pub num_codewords: usize,
    pub codeword_len: usize,
    pub batch_size: Option<usize>,
    pub zkvm: bool,
    pub num_openings: usize,
    pub epl: Option<usize>,
    pub parallel: usize,
    pub hybrid: bool,
    pub num_inner_proofs: usize,
    pub spot_check: bool,
    pub spot_checks: Option<usize>,
}

/// What the command line asks for.
#[derive(Clone, Copy, Debug)]
pub enum Parsed {
    /// A run with these options.
    Run { options: Options },
    /// The help text.
    Help,
    /// The argument is not an option.
    Unknown { index: usize },
    /// The option at the end lacks its value.
    Missing { index: usize },
    /// The argument is not a number.
    Invalid { index: usize },
}

/// The option that an argument names.
pub open spec fn flag_of(s: Seq<char>) -> Option<Flag> {
    if s == "--codewords"@ || s == "-m"@ {
        Some(Flag::Codewords)
    } else if s == "--length"@ || s == "-n"@ {
        Some(Flag::Length)
    } else if s == "--batch-size"@ || s == "-b"@ {
        Some(Flag::BatchSize)
    } else if s == "--epl"@ {
        Some(Flag::Epl)
    } else if s == "--zkvm"@ {
        Some(Flag::Zkvm)
    } else if s == "--parallel"@ {
        Some(Flag::Parallel)
    } else if s == "--openings"@ {
        Some(Flag::Openings)
    } else if s == "--hybrid"@ {
        Some(Flag::Hybrid)
    } else if s == "--inner-proofs"@ {
        Some(Flag::InnerProofs)
    } else if s == "--spot-check"@ {
        Some(Flag::SpotCheck)
    } else if s == "-k"@ {
        Some(Flag::Checks)
    } else if s == "--help"@ || s == "-h"@ {
        Some(Flag::Help)
    } else {
        None
    }
}

/// Whether a string holds a text.
fn is_text(s: &String, text: &str) -> (r: bool)
    ensures
        r == (s@ == text@),
{
    *s == String::from_str(text)
}

/// Find the option that an argument names.
fn find_flag(s: &String) -> (r: Option<Flag>)
    ensures
        r == flag_of(s@),
{
    if is_text(s, "--codewords") || is_text(s, "-m") {
        Some(Flag::Codewords)
    } else if is_text(s, "--length") || is_text(s, "-n") {
        Some(Flag::Length)
    } else if is_text(s, "--batch-size") || is_text(s, "-b") {
        Some(Flag::BatchSize)
    } else if is_text(s, "--epl") {
        Some(Flag::Epl)
    } else if is_text(s, "--zkvm") {
        Some(Flag::Zkvm)
    } else if is_text(s, "--parallel") {
        Some(Flag::Parallel)
    } else if is_text(s, "--openings") {
        Some(Flag::Openings)
    } else if is_text(s, "--hybrid") {
        Some(Flag::Hybrid)
    } else if is_text(s, "--inner-proofs") {
        Some(Flag::InnerProofs)
    } else if is_text(s, "--spot-check") {
        Some(Flag::SpotCheck)
    } else if is_text(s, "-k") {
        Some(Flag::Checks)
    } else if is_text(s, "--help") || is_text(s, "-h") {
        Some(Flag::Help)
    } else {
        None
    }
}

/// The option is followed by a value.
pub open spec fn takes_value(f: Flag) -> bool {
    !(f is Zkvm || f is Hybrid || f is SpotCheck || f is Help)
}

/// The options after an option was given, with its value if it takes one.
pub open spec fn with_flag(o: Options, f: Flag, value: usize) -> Options {
    match f {
        Flag::Codewords => Options { num_codewords: value, ..o },
        Flag::Length => Options { codeword_len: value, ..o },
        Flag::BatchSize => Options { batch_size: Some(value), ..o },
        Flag::Epl => Options { epl: Some(value), ..o },
        Flag::Zkvm => Options { zkvm: true, ..o },
        Flag::Parallel => Options { parallel: value, ..o },
        Flag::Openings => Options { num_openings: value, ..o },
        Flag::Hybrid => Options { hybrid: true, ..o },
        Flag::InnerProofs => Options { num_inner_proofs: value, ..o },
        Flag::SpotCheck => Options { spot_check: true, ..o },
        Flag::Checks => Options { spot_checks: Some(value), ..o },
        Flag::Help => o,
    }
}

/// Apply an option.
fn apply_flag(o: Options, f: Flag, value: usize) -> (r: Options)
    ensures
        r == with_flag(o, f, value),
{
    let mut r = o;
    match f {
        Flag::Codewords => {
            r.num_codewords = value;
        },
        Flag::Length => {
            r.codeword_len = value;
        },
        Flag::BatchSize => {
            r.batch_size = Some(value);
        },
        Flag::Epl => {
            r.epl = Some(value);
        },
        Flag::Zkvm => {
            r.zkvm = true;
        },
        Flag::Parallel => {
            r.parallel = value;
        },
        Flag::Openings => {
            r.num_openings = value;
        },
        Flag::Hybrid => {
            r.hybrid = true;
        },
        Flag::InnerProofs => {
            r.num_inner_proofs = value;
        },
        Flag::SpotCheck => {
            r.spot_check = true;
        },
        Flag::Checks => {
            r.spot_checks = Some(value);
        },
        Flag::Help => {},
    }
    r
}

/// The options when none is given.
pub open spec fn default_options() -> Options {
    Options {
        num_codewords: 4,
        codeword_len: 32,
        batch_size: None,
        zkvm: false,
        num_openings: 4,
        epl: None,
        parallel: 0,
        hybrid: false,
        num_inner_proofs: 4,
        spot_check: false,
        spot_checks: None,
    }
}

impl Default for Options {
    fn default() -> (r: Self)
        ensures
            r == default_options(),
    {
        Options {
            num_codewords: 4,
            codeword_len: 32,
            batch_size: None,
            zkvm: false,
            num_openings: 4,
            epl: None,
            parallel: 0,
            hybrid: false,
            num_inner_proofs: 4,
            spot_check: false,
            spot_checks: None,
        }
    }
}

/// The character is a decimal digit.
pub open spec fn is_digit(c: char) -> bool {
    '0' <= c <= '9'
}

/// The value of decimal digits.
pub open spec fn digits_value(d: Seq<char>) -> int
    decreases d.len(),
{
    if d.len() == 0 {
        0
    } else {
        10 * digits_value(d.drop_last()) + (d.last() as int - '0' as int)
    }
}

/// The digits of a number, after its sign if it has one.
pub open spec fn unsigned(s: Seq<char>) -> Seq<char> {
    if s.len() > 0 && s[0] == '+' {
        s.skip(1)
    } else {
        s
    }
}

/// The number that a text stands for: decimal digits, with or without a plus sign, of a
/// value that fits a machine word.
pub open spec fn number_of(s: Seq<char>) -> Option<usize> {
    let d = unsigned(s);
    if d.len() > 0 && (forall|i: int| 0 <= i < d.len() ==> is_digit(#[trigger] d[i]))
        && digits_value(d) <= usize::MAX {
        Some(digits_value(d) as usize)
    } else {
        None
    }
}

/// More digits do not make the value smaller.
proof fn lemma_digits_grow(d: Seq<char>, i: int)
    requires
        0 <= i <= d.len(),
        forall|j: int| 0 <= j < d.len() ==> is_digit(#[trigger] d[j]),
    ensures
        0 <= digits_value(d.take(i)) <= digits_value(d),
    decreases d.len(),
{
    if i < d.len() {
        let e = d.drop_last();
        assert(e.take(i) =~= d.take(i));
        lemma_digits_grow(e, i);
    } else {
        assert(d.take(i) =~= d);
        if d.len() > 0 {
            let e = d.drop_last();
            lemma_digits_grow(e, 0);
            assert(e.take(0) =~= Seq::empty());
        }
    }
}

/// Parse a number.
pub fn parse_number(s: &String) -> (r: Option<usize>)
    ensures
        r == number_of(s@),
{
    let text = s.as_str();
    let len: usize = text.unicode_len();
    let mut i: usize = 0;
    if len > 0 && text.get_char(0) == '+' {
        i = 1;
    }
    let ghost d = unsigned(s@);
    let start: usize = i;
    if start == len {
        assert(d.len() == 0);
        return None;
    }
    assert(d =~= s@.skip(start as int));
    let mut value: usize = 0;
    assert(d.take(0) =~= Seq::empty());
    while i < len
        invariant
            start <= i <= len,
            text@ == s@,
            len == s@.len(),
            d == unsigned(s@),
            d == s@.skip(start as int),
            d.len() > 0,
            forall|j: int| 0 <= j < i - start ==> is_digit(#[trigger] d[j]),
            value == digits_value(d.take(i - start)),
        decreases len - i,
    {
        let c = text.get_char(i);
        let ghost k = i - start;
        assert(d[k] == c);
        if !('0' <= c && c <= '9') {
            return None;
        }
        let x: usize = (c as u32 - '0' as u32) as usize;
        assert(d.take(k + 1).drop_last() =~= d.take(k));
        assert(digits_value(d.take(k + 1)) == 10 * value + x);
        if value > (usize::MAX - x) / 10 {
            proof {
                if forall|j: int| 0 <= j < d.len() ==> is_digit(#[trigger] d[j]) {
                    lemma_digits_grow(d, k + 1);
                }
            }
            return None;
        }
        value = 10 * value + x;
        i = i + 1;
    }
    assert(d.take(len - start) =~= d);
    Some(value)
}

/// What the arguments from `i` on ask for, after the options so far.
pub open spec fn parse_from(args: Seq<Seq<char>>, i: int, o: Options) -> Parsed
    decreases args.len() - i,
{
    if i >= args.len() {
        Parsed::Run { options: o }
    } else {
        match flag_of(args[i]) {
            None => Parsed::Unknown { index: i as usize },
            Some(f) => if f is Help {
                Parsed::Help
            } else if !takes_value(f) {
                parse_from(args, i + 1, with_flag(o, f, 0))
            } else if i + 1 >= args.len() {
                Parsed::Missing { index: i as usize }
            } else {
                match number_of(args[i + 1]) {
                    None => Parsed::Invalid { index: (i + 1) as usize },
                    Some(value) => parse_from(args, i + 2, with_flag(o, f, value)),
                }
            },
        }
    }
}

/// Parse the command line; the first argument is the program's name.
pub fn parse_args(args: &Vec<String>) -> (r: Parsed)
    ensures
        r == parse_from(texts(args@), 1, default_options()),
{
    let mut options = Options::default();
    let n: usize = args.len();
    let mut i: usize = 1;
    while i < n
        invariant
            n == args@.len(),
            i <= n || i == 1,
            parse_from(texts(args@), i as int, options) == parse_from(
                texts(args@),
                1,
                default_options(),
            ),
        decreases n - i,
    {
        match find_flag(&args[i]) {
            None => {
                return Parsed::Unknown { index: i };
            },
            Some(f) => {
                if f == Flag::Help {
                    return Parsed::Help;
                } else if f == Flag::Zkvm || f == Flag::Hybrid || f == Flag::SpotCheck {
                    options = apply_flag(options, f, 0);
                    i = i + 1;
                } else if i + 1 >= n {
                    return Parsed::Missing { index: i };
                } else {
                    match parse_number(&args[i + 1]) {
                        None => {
                            return Parsed::Invalid { index: i + 1 };
                        },
                        Some(value) => {
                            options = apply_flag(options, f, value);
                            i = i + 2;
                        },
                    }
                }
            },
        }
    }
    Parsed::Run { options }
}

/// The run that options ask for.
#[derive(Clone, Copy, Debug)]
pub enum Run {
    /// Aggregate proofs of batches with the hybrid circuit.
    Hybrid { num_inner_proofs: usize, codeword_len: usize, epl: usize, batch_size: usize },
    /// Prove one batch with the spot-check circuit.
    SpotCheck {
        num_codewords: usize,
        codeword_len: usize,
        epl: usize,
        batch_size: usize,
        spot_checks: Option<usize>,
    },
    /// Run the pipeline.
    Pipeline {
        num_codewords: usize,
        codeword_len: usize,
        batch_size: usize,
        epl: usize,
        zkvm: bool,
        num_openings: usize,
        parallel: usize,
    },
    /// The codeword length is not a power of two.
    NotPowerOfTwo,
    /// The codeword length is below the least leaf size.
    TooShort,
}

/// The given value, or else another.
pub open spec fn given_or(given: Option<usize>, other: usize) -> usize {
    match given {
        Some(v) => v,
        None => other,
    }
}

/// The evaluations per leaf: as given, or else from the codeword length.
pub open spec fn epl_of(o: Options) -> usize {
    given_or(
        o.epl,
        if o.codeword_len <= 128 {
            MIN_EVALS_PER_LEAF
        } else {
            64
        },
    )
}

/// The run that options ask for. The hybrid demonstration goes before spot checks, and
/// both before the pipeline, which alone checks the codeword length.
pub open spec fn run_of(o: Options) -> Run {
    if o.hybrid {
        Run::Hybrid {
            num_inner_proofs: o.num_inner_proofs,
            codeword_len: o.codeword_len,
            epl: epl_of(o),
            batch_size: given_or(o.batch_size, 1),
        }
    } else if o.spot_check {
        Run::SpotCheck {
            num_codewords: o.num_codewords,
            codeword_len: o.codeword_len,
            epl: epl_of(o),
            batch_size: given_or(o.batch_size, o.num_codewords),
            spot_checks: o.spot_checks,
        }
    } else if !is_pow2(o.codeword_len as int) {
        Run::NotPowerOfTwo
    } else if o.codeword_len < MIN_EVALS_PER_LEAF {
        Run::TooShort
    } else {
        Run::Pipeline {
            num_codewords: o.num_codewords,
            codeword_len: o.codeword_len,
            batch_size: given_or(o.batch_size, o.num_codewords),
            epl: epl_of(o),
            zkvm: o.zkvm,
            num_openings: o.num_openings,
            parallel: o.parallel,
        }
    }
}

/// The given value, or else another.
fn value_or(given: Option<usize>, other: usize) -> (r: usize)
    ensures
        r == given_or(given, other),
{
    match given {
        Some(v) => v,
        None => other,
    }
}

/// Decide which run the options ask for.
pub fn choose_run(o: &Options) -> (r: Run)
    ensures
        r == run_of(*o),
{
    let epl: usize = value_or(o.epl, compute_evals_per_leaf(o.codeword_len));
    if o.hybrid {
        Run::Hybrid {
            num_inner_proofs: o.num_inner_proofs,
            codeword_len: o.codeword_len,
            epl,
            batch_size: value_or(o.batch_size, 1),
        }
    } else if o.spot_check {
        Run::SpotCheck {
            num_codewords: o.num_codewords,
            codeword_len: o.codeword_len,
            epl,
            batch_size: value_or(o.batch_size, o.num_codewords),
            spot_checks: o.spot_checks,
        }
    } else if !is_power_of_two(o.codeword_len) {
        Run::NotPowerOfTwo
    } else if o.codeword_len < MIN_EVALS_PER_LEAF {
        Run::TooShort
    } else {
        Run::Pipeline {
            num_codewords: o.num_codewords,
            codeword_len: o.codeword_len,
            batch_size: value_or(o.batch_size, o.num_codewords),
            epl,
            zkvm: o.zkvm,
            num_openings: o.num_openings,
            parallel: o.parallel,
        }
    }
}

/// Parsing a number's decimal text gives the number back.
pub proof fn lemma_number_of_decimal(n: usize)
    ensures
        number_of(decimal(n as int)) == Some(n),
{
    lemma_decimal_digits(n as int);
}

/// The decimal text of a number is made of digits and has its value.
proof fn lemma_decimal_digits(n: int)
    requires
        n >= 0,
    ensures
        decimal(n).len() > 0,
        forall|i: int| 0 <= i < decimal(n).len() ==> is_digit(#[trigger] decimal(n)[i]),
        digits_value(decimal(n)) == n,
    decreases n,
{
    reveal_strlit("0");
    reveal_strlit("1");
    reveal_strlit("2");
    reveal_strlit("3");
    reveal_strlit("4");
    reveal_strlit("5");
    reveal_strlit("6");
    reveal_strlit("7");
    reveal_strlit("8");
    reveal_strlit("9");
    let last = digit(n % 10);
    assert(last.len() == 1 && is_digit(last[0]) && last[0] as int - '0' as int == n % 10);
    if n < 10 {
        assert(decimal(n).drop_last() =~= Seq::empty());
        assert(digits_value(decimal(n).drop_last()) == 0);
    } else {
        lemma_decimal_digits(n / 10);
        assert((decimal(n / 10) + last).drop_last() =~= decimal(n / 10));
    }
}

/// A zero in front leaves the value of digits as it is.
proof fn lemma_leading_zero(d: Seq<char>)
    ensures
        digits_value(seq!['0'] + d) == digits_value(d),
    decreases d.len(),
{
    let z = seq!['0'] + d;
    if d.len() == 0 {
        assert(z.drop_last() =~= Seq::empty());
        assert(digits_value(z.drop_last()) == 0);
    } else {
        lemma_leading_zero(d.drop_last());
        assert(z.drop_last() =~= seq!['0'] + d.drop_last());
    }
}

/// Which texts are numbers: a number in decimal may have a plus sign and zeros in front.
/// One that is too large for a machine word is none, and neither is a text without digits or
/// one with anything but a digit behind a first plus sign.
pub proof fn lemma_number_forms(n: int, s: Seq<char>, i: int)
    requires
        n >= 0,
    ensures
        n <= usize::MAX ==> number_of(decimal(n)) == Some(n as usize),
        n <= usize::MAX ==> number_of(seq!['+'] + decimal(n)) == Some(n as usize),
        n <= usize::MAX ==> number_of(seq!['0'] + decimal(n)) == Some(n as usize),
        n > usize::MAX ==> number_of(decimal(n)) is None,
        s.len() == 0 ==> number_of(s) is None,
        s == seq!['+'] ==> number_of(s) is None,
        0 <= i < s.len() && !('0' <= s[i] <= '9') && (i > 0 || s[i] != '+') ==> number_of(s) is None,
{
    let d = decimal(n);
    lemma_decimal_digits(n);
    lemma_leading_zero(d);
    assert(is_digit(d[0]));
    assert((seq!['+'] + d).skip(1) =~= d);
    let u = unsigned(s);
    if s == seq!['+'] {
        assert(u.len() == 0);
    }
    if 0 <= i < s.len() && !is_digit(s[i]) && (i > 0 || s[i] != '+') {
        if s[0] == '+' {
            assert(u[i - 1] == s[i]);
        } else {
            assert(u[i] == s[i]);
        }
    }
}

} // verus!
