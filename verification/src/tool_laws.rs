//! Laws of the command line and of the search for a manifest.

use crate::cli::{
    default_options, flag_of, lemma_number_of_decimal, number_of, parse_from, run_of, takes_value,
    with_flag, Flag, Options, Parsed, Run,
};
use crate::metadata::{first_at, lemma_first_at, manifest_path, occurs_at};
use crate::text::decimal;
use vstd::arithmetic::power2::is_pow2;
use vstd::prelude::*;

verus! {

// The command line.

/// What arguments followed by others ask for.
pub open spec fn after(args: Seq<Seq<char>>, tail: Seq<Seq<char>>) -> Parsed {
    parse_from(args + tail, 1, default_options())
}

/// Arguments that ask for a run are read before those that follow them.
proof fn lemma_parse_goes_on(
    args: Seq<Seq<char>>,
    tail: Seq<Seq<char>>,
    i: int,
    o: Options,
    p: Options,
)
    requires
        0 <= i <= args.len(),
        parse_from(args, i, o) == (Parsed::Run { options: p }),
    ensures
        parse_from(args + tail, i, o) == parse_from(args + tail, args.len() as int, p),
    decreases args.len() - i,
{
    if i < args.len() {
        assert((args + tail)[i] == args[i]);
        let f = flag_of(args[i])->0;
        if !takes_value(f) {
            lemma_parse_goes_on(args, tail, i + 1, with_flag(o, f, 0), p);
        } else {
            assert((args + tail)[i + 1] == args[i + 1]);
            let v = number_of(args[i + 1])->0;
            lemma_parse_goes_on(args, tail, i + 2, with_flag(o, f, v), p);
        }
    }
}

/// One more option with a value.
proof fn lemma_value_option(args: Seq<Seq<char>>, o: Options, name: Seq<char>, f: Flag, v: usize)
    requires
        args.len() >= 1,
        parse_from(args, 1, default_options()) == (Parsed::Run { options: o }),
        flag_of(name) == Some(f),
        takes_value(f),
        number_of(decimal(v as int)) == Some(v),
    ensures
        after(args, seq![name, decimal(v as int)]) == (Parsed::Run {
            options: with_flag(o, f, v),
        }),
{
    let tail = seq![name, decimal(v as int)];
    let n = args.len() as int;
    let all = args + tail;
    lemma_parse_goes_on(args, tail, 1, default_options(), o);
    assert(all[n] == name);
    assert(all[n + 1] == decimal(v as int));
    assert(all.len() == n + 2);
    assert(parse_from(all, n + 2, with_flag(o, f, v)) == (Parsed::Run {
        options: with_flag(o, f, v),
    }));
}

/// One more option without a value.
proof fn lemma_plain_option(args: Seq<Seq<char>>, o: Options, name: Seq<char>, f: Flag)
    requires
        args.len() >= 1,
        parse_from(args, 1, default_options()) == (Parsed::Run { options: o }),
        flag_of(name) == Some(f),
        !takes_value(f),
    ensures
        !(f is Help) ==> after(args, seq![name]) == (Parsed::Run { options: with_flag(o, f, 0) }),
        f is Help ==> after(args, seq![name]) == Parsed::Help,
{
    let tail = seq![name];
    let n = args.len() as int;
    let all = args + tail;
    lemma_parse_goes_on(args, tail, 1, default_options(), o);
    assert(all[n] == name);
    assert(all.len() == n + 1);
    if !(f is Help) {
        assert(parse_from(all, n + 1, with_flag(o, f, 0)) == (Parsed::Run {
            options: with_flag(o, f, 0),
        }));
    }
}

/// The names of the options.
proof fn lemma_flags()
    ensures
        flag_of("--codewords"@) == Some(Flag::Codewords),
        flag_of("-m"@) == Some(Flag::Codewords),
        flag_of("--length"@) == Some(Flag::Length),
        flag_of("-n"@) == Some(Flag::Length),
        flag_of("--batch-size"@) == Some(Flag::BatchSize),
        flag_of("-b"@) == Some(Flag::BatchSize),
        flag_of("--epl"@) == Some(Flag::Epl),
        flag_of("--zkvm"@) == Some(Flag::Zkvm),
        flag_of("--parallel"@) == Some(Flag::Parallel),
        flag_of("--openings"@) == Some(Flag::Openings),
        flag_of("--hybrid"@) == Some(Flag::Hybrid),
        flag_of("--inner-proofs"@) == Some(Flag::InnerProofs),
        flag_of("--spot-check"@) == Some(Flag::SpotCheck),
        flag_of("-k"@) == Some(Flag::Checks),
        flag_of("--help"@) == Some(Flag::Help),
        flag_of("-h"@) == Some(Flag::Help),
{
    reveal_strlit("--codewords");
    reveal_strlit("-m");
    reveal_strlit("--length");
    reveal_strlit("-n");
    reveal_strlit("--batch-size");
    reveal_strlit("-b");
    reveal_strlit("--epl");
    reveal_strlit("--zkvm");
    reveal_strlit("--parallel");
    reveal_strlit("--openings");
    reveal_strlit("--hybrid");
    reveal_strlit("--inner-proofs");
    reveal_strlit("--spot-check");
    reveal_strlit("-k");
    reveal_strlit("--help");
    reveal_strlit("-h");
    assert("--codewords"@.len() == 11);
    assert("-m"@.len() == 2);
    assert("-m"@[1] == 'm');
    assert("--length"@.len() == 8);
    assert("--length"@[2] == 'l');
    assert("-n"@.len() == 2);
    assert("-n"@[1] == 'n');
    assert("--batch-size"@.len() == 12);
    assert("--batch-size"@[2] == 'b');
    assert("-b"@.len() == 2);
    assert("-b"@[1] == 'b');
    assert("--epl"@.len() == 5);
    assert("--zkvm"@.len() == 6);
    assert("--zkvm"@[2] == 'z');
    assert("--parallel"@.len() == 10);
    assert("--parallel"@[2] == 'p');
    assert("--openings"@.len() == 10);
    assert("--openings"@[2] == 'o');
    assert("--hybrid"@.len() == 8);
    assert("--hybrid"@[2] == 'h');
    assert("--inner-proofs"@.len() == 14);
    assert("--spot-check"@.len() == 12);
    assert("--spot-check"@[2] == 's');
    assert("-k"@.len() == 2);
    assert("-k"@[1] == 'k');
    assert("--help"@.len() == 6);
    assert("--help"@[2] == 'h');
    assert("-h"@.len() == 2);
    assert("-h"@[1] == 'h');
}

/// An option that is given after others sets what it names and leaves the rest as the others
/// left it, for every value; so the last one counts. The long and the short name of an option
/// do the same.
pub proof fn lemma_options_set_what_they_name(args: Seq<Seq<char>>, o: Options, v: usize)
    requires
        args.len() >= 1,
        parse_from(args, 1, default_options()) == (Parsed::Run { options: o }),
    ensures
        after(args, seq!["--codewords"@, decimal(v as int)]) == (Parsed::Run {
            options: Options { num_codewords: v, ..o },
        }),
        after(args, seq!["-m"@, decimal(v as int)]) == (Parsed::Run {
            options: Options { num_codewords: v, ..o },
        }),
        after(args, seq!["--length"@, decimal(v as int)]) == (Parsed::Run {
            options: Options { codeword_len: v, ..o },
        }),
        after(args, seq!["-n"@, decimal(v as int)]) == (Parsed::Run {
            options: Options { codeword_len: v, ..o },
        }),
        after(args, seq!["--batch-size"@, decimal(v as int)]) == (Parsed::Run {
            options: Options { batch_size: Some(v), ..o },
        }),
        after(args, seq!["-b"@, decimal(v as int)]) == (Parsed::Run {
            options: Options { batch_size: Some(v), ..o },
        }),
        after(args, seq!["--epl"@, decimal(v as int)]) == (Parsed::Run {
            options: Options { epl: Some(v), ..o },
        }),
        after(args, seq!["--zkvm"@]) == (Parsed::Run { options: Options { zkvm: true, ..o } }),
        after(args, seq!["--parallel"@, decimal(v as int)]) == (Parsed::Run {
            options: Options { parallel: v, ..o },
        }),
        after(args, seq!["--openings"@, decimal(v as int)]) == (Parsed::Run {
            options: Options { num_openings: v, ..o },
        }),
        after(args, seq!["--hybrid"@]) == (Parsed::Run { options: Options { hybrid: true, ..o } }),
        after(args, seq!["--inner-proofs"@, decimal(v as int)]) == (Parsed::Run {
            options: Options { num_inner_proofs: v, ..o },
        }),
        after(args, seq!["--spot-check"@]) == (Parsed::Run { options: Options { spot_check: true, ..o } }),
        after(args, seq!["-k"@, decimal(v as int)]) == (Parsed::Run {
            options: Options { spot_checks: Some(v), ..o },
        }),
        after(args, seq!["--help"@]) == Parsed::Help,
        after(args, seq!["-h"@]) == Parsed::Help,
{
    lemma_flags();
    lemma_number_of_decimal(v);
    lemma_value_option(args, o, "--codewords"@, Flag::Codewords, v);
    lemma_value_option(args, o, "-m"@, Flag::Codewords, v);
    lemma_value_option(args, o, "--length"@, Flag::Length, v);
    lemma_value_option(args, o, "-n"@, Flag::Length, v);
    lemma_value_option(args, o, "--batch-size"@, Flag::BatchSize, v);
    lemma_value_option(args, o, "-b"@, Flag::BatchSize, v);
    lemma_value_option(args, o, "--epl"@, Flag::Epl, v);
    lemma_plain_option(args, o, "--zkvm"@, Flag::Zkvm);
    lemma_value_option(args, o, "--parallel"@, Flag::Parallel, v);
    lemma_value_option(args, o, "--openings"@, Flag::Openings, v);
    lemma_plain_option(args, o, "--hybrid"@, Flag::Hybrid);
    lemma_value_option(args, o, "--inner-proofs"@, Flag::InnerProofs, v);
    lemma_plain_option(args, o, "--spot-check"@, Flag::SpotCheck);
    lemma_value_option(args, o, "-k"@, Flag::Checks, v);
    lemma_plain_option(args, o, "--help"@, Flag::Help);
    lemma_plain_option(args, o, "-h"@, Flag::Help);
}

/// Without options the run is on four codewords of length 32 in one batch, in reference mode.
pub proof fn lemma_no_options(program: Seq<char>)
    ensures
        parse_from(seq![program], 1, default_options()) == (Parsed::Run {
            options: Options {
                num_codewords: 4,
                codeword_len: 32,
                batch_size: None,
                zkvm: false,
                num_openings: 4,
                epl: None,
                parallel: 0,
                hybrid: false,
                num_inner_proofs: 4,
                spot_check: false,
                spot_checks: None,
            },
        }),
{
}

/// What is not an option, an option at the end that lacks its value, and a value that is not a
/// number are reported with their place, whatever stands before them.
pub proof fn lemma_bad_arguments(
    args: Seq<Seq<char>>,
    o: Options,
    bad: Seq<char>,
    rest: Seq<Seq<char>>,
)
    requires
        args.len() >= 1,
        args.len() + 1 <= usize::MAX,
        parse_from(args, 1, default_options()) == (Parsed::Run { options: o }),
    ensures
        flag_of(bad) is None ==> after(args, seq![bad] + rest) == (Parsed::Unknown {
            index: args.len() as usize,
        }),
        after(args, seq!["--length"@]) == (Parsed::Missing { index: args.len() as usize }),
        number_of(bad) is None ==> after(args, seq!["--length"@, bad] + rest)
            == (Parsed::Invalid { index: (args.len() + 1) as usize }),
{
    lemma_flags();
    let n = args.len() as int;
    let (a, b, c) = (seq![bad] + rest, seq!["--length"@], seq!["--length"@, bad] + rest);
    lemma_parse_goes_on(args, a, 1, default_options(), o);
    lemma_parse_goes_on(args, b, 1, default_options(), o);
    lemma_parse_goes_on(args, c, 1, default_options(), o);
    assert((args + a)[n] == bad);
    assert((args + b)[n] == "--length"@);
    assert((args + b).len() == n + 1);
    assert((args + c)[n] == "--length"@);
    assert((args + c)[n + 1] == bad);
}

/// An option that takes a number and is the last argument lacks its value, and one that is
/// followed by anything but a number has an invalid one.
pub proof fn lemma_bad_values(
    args: Seq<Seq<char>>,
    o: Options,
    option: Seq<char>,
    bad: Seq<char>,
    rest: Seq<Seq<char>>,
)
    requires
        args.len() >= 1,
        args.len() + 1 <= usize::MAX,
        parse_from(args, 1, default_options()) == (Parsed::Run { options: o }),
        option == "--codewords"@ || option == "-m"@ || option == "--length"@ || option == "-n"@
            || option == "--batch-size"@ || option == "-b"@ || option == "--epl"@ || option
            == "--parallel"@ || option == "--openings"@ || option == "--inner-proofs"@ || option
            == "-k"@,
    ensures
        after(args, seq![option]) == (Parsed::Missing { index: args.len() as usize }),
        number_of(bad) is None ==> after(args, seq![option, bad] + rest) == (Parsed::Invalid {
            index: (args.len() + 1) as usize,
        }),
{
    lemma_flags();
    let n = args.len() as int;
    let (b, c) = (seq![option], seq![option, bad] + rest);
    lemma_parse_goes_on(args, b, 1, default_options(), o);
    lemma_parse_goes_on(args, c, 1, default_options(), o);
    assert((args + b)[n] == option);
    assert((args + b).len() == n + 1);
    assert((args + c)[n] == option);
    assert((args + c)[n + 1] == bad);
    assert(flag_of(option) is Some && takes_value(flag_of(option)->0));
}

/// Any other word in the place of an option is unknown.
pub proof fn lemma_other_words_are_unknown(
    args: Seq<Seq<char>>,
    o: Options,
    word: Seq<char>,
    rest: Seq<Seq<char>>,
)
    requires
        args.len() >= 1,
        args.len() + 1 <= usize::MAX,
        parse_from(args, 1, default_options()) == (Parsed::Run { options: o }),
        word != "--codewords"@,
        word != "-m"@,
        word != "--length"@,
        word != "-n"@,
        word != "--batch-size"@,
        word != "-b"@,
        word != "--epl"@,
        word != "--zkvm"@,
        word != "--parallel"@,
        word != "--openings"@,
        word != "--hybrid"@,
        word != "--inner-proofs"@,
        word != "--spot-check"@,
        word != "-k"@,
        word != "--help"@,
        word != "-h"@,
    ensures
        after(args, seq![word] + rest) == (Parsed::Unknown { index: args.len() as usize }),
{
    assert(flag_of(word) is None);
    lemma_bad_arguments(args, o, word, rest);
}

/// The run that options ask for takes its sizes from them. Without a batch size all codewords
/// are in one batch, but one codeword is in a batch of the hybrid demonstration; without a
/// leaf size it is 16 for codewords up to 128 and 64 for longer ones. The pipeline refuses a
/// length that is no power of two, and then one below the least leaf size.
pub proof fn lemma_run_follows_options(o: Options)
    ensures
        ({
            let r = run_of(o);
            let leaf = match o.epl {
                Some(e) => e,
                None => if o.codeword_len <= 128 {
                    16usize
                } else {
                    64usize
                },
            };
            &&& r is Hybrid <==> o.hybrid
            &&& r is SpotCheck <==> !o.hybrid && o.spot_check
            &&& r is NotPowerOfTwo <==> !o.hybrid && !o.spot_check && !is_pow2(
                o.codeword_len as int,
            )
            &&& r is TooShort <==> !o.hybrid && !o.spot_check && is_pow2(o.codeword_len as int)
                && o.codeword_len < 16
            &&& r matches Run::Hybrid { num_inner_proofs, codeword_len, epl, batch_size } ==> {
                &&& num_inner_proofs == o.num_inner_proofs
                &&& codeword_len == o.codeword_len
                &&& epl == leaf
                &&& o.batch_size is Some ==> Some(batch_size) == o.batch_size
                &&& o.batch_size is None ==> batch_size == 1
            }
            &&& r matches Run::SpotCheck {
                num_codewords,
                codeword_len,
                epl,
                batch_size,
                spot_checks,
            } ==> {
                &&& num_codewords == o.num_codewords
                &&& codeword_len == o.codeword_len
                &&& epl == leaf
                &&& o.batch_size is Some ==> Some(batch_size) == o.batch_size
                &&& o.batch_size is None ==> batch_size == num_codewords
                &&& spot_checks == o.spot_checks
            }
            &&& r matches Run::Pipeline {
                num_codewords,
                codeword_len,
                batch_size,
                epl,
                zkvm,
                num_openings,
                parallel,
            } ==> {
                &&& num_codewords == o.num_codewords
                &&& codeword_len == o.codeword_len
                &&& epl == leaf
                &&& o.batch_size is Some ==> Some(batch_size) == o.batch_size
                &&& o.batch_size is None ==> batch_size == num_codewords
                &&& zkvm == o.zkvm
                &&& num_openings == o.num_openings
                &&& parallel == o.parallel
            }
        }),
{
}

// The manifest.

/// A position at which a pattern stands, with none before it, is the first.
proof fn lemma_first_is(text: Seq<char>, pattern: Seq<char>, from: int, i: int)
    requires
        0 <= from <= i,
        occurs_at(text, pattern, i),
        forall|j: int| from <= j < i ==> !#[trigger] occurs_at(text, pattern, j),
    ensures
        first_at(text, pattern, from) == Some(i),
{
    lemma_first_at(text, pattern, from);
}

/// The path of a package's manifest is found: where the package's entry, from its name on to
/// its version, stands first at the end of `a`, and the next manifest path follows after `b`,
/// it is the text up to the next quote.
pub proof fn lemma_manifest_found(
    a: Seq<char>,
    name: Seq<char>,
    b: Seq<char>,
    path: Seq<char>,
    c: Seq<char>,
)
    requires
        ({
            let entry = "\"name\":\""@ + name + "\",\"version\":\""@;
            let key = "\"manifest_path\":\""@;
            let json = a + entry + b + key + path + "\""@ + c;
            &&& forall|j: int| 0 <= j < a.len() ==> !#[trigger] occurs_at(json, entry, j)
            &&& forall|j: int|
                a.len() <= j < (a + entry + b).len() ==> !#[trigger] occurs_at(json, key, j)
        }),
        forall|i: int| 0 <= i < path.len() ==> path[i] != '"',
    ensures
        ({
            let entry = "\"name\":\""@ + name + "\",\"version\":\""@;
            let key = "\"manifest_path\":\""@;
            manifest_path(a + entry + b + key + path + "\""@ + c, name) == Some(path)
        }),
{
    let entry = "\"name\":\""@ + name + "\",\"version\":\""@;
    let key = "\"manifest_path\":\""@;
    let quote = "\""@;
    let json = a + entry + b + key + path + quote + c;
    let at = (a + entry + b).len() as int;
    let n = a.len() as int;
    assert(json.subrange(n, n + entry.len()) =~= entry);
    lemma_first_is(json, entry, 0, n);
    assert(json.subrange(at, at + key.len()) =~= key);
    lemma_first_is(json, key, n, at);
    reveal_strlit("\"");
    assert(quote.len() == 1 && quote[0] == '"');
    let start = at + key.len();
    let end = start + path.len();
    assert(json.subrange(end, end + 1) =~= quote);
    assert forall|j: int| start <= j < end implies !#[trigger] occurs_at(json, quote, j) by {
        assert(json[j] == path[j - start]);
        if occurs_at(json, quote, j) {
            assert(json.subrange(j, j + 1)[0] == json[j]);
        }
    }
    lemma_first_is(json, quote, start, end);
    assert(json.subrange(start, end) =~= path);
}

} // verus!
