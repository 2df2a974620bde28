//! Command-line helpers: pull the word and the Caesar code out of an
//! argument list, and recognise the operation name. The scan mirrors a
//! `--flag value` convention: the value is the argument right after the
//! first occurrence of the flag.

use vstd::prelude::*;
use crate::cipher::Operation;

verus! {

/// The views of an argument list: each argument as its character sequence.
pub open spec fn views_of(args: Seq<String>) -> Seq<Seq<char>> {
    args.map_values(|a: String| a@)
}

/// What scanning an argument list for a flag yields: at the first position
/// where the flag stands with an argument after it, the scan stops — with
/// that argument when it is non-empty, and with `None` when it is empty.
/// When no such position exists — the flag is absent, or stands last —
/// the scan yields `None`: a missing value and an empty one are both
/// fatal input errors.
pub open spec fn flag_scan(args: Seq<Seq<char>>, flag: Seq<char>) -> Option<Seq<char>>
    decreases args.len(),
{
    if args.len() < 2 {
        Option::None
    } else if args[0] == flag {
        if args[1].len() == 0 {
            Option::None
        } else {
            Option::Some(args[1])
        }
    } else {
        flag_scan(args.drop_first(), flag)
    }
}

/// Scan an argument list for a flag and hand back the value that follows
/// it, exactly as `flag_scan` describes.
fn find_flag_value(args: &Vec<String>, flag: &String) -> (result: Option<String>)
    ensures
        match result {
            Option::Some(w) => flag_scan(views_of(args@), flag@) == Option::Some(w@),
            Option::None => flag_scan(views_of(args@), flag@) is None,
        },
{
    let n: usize = args.len();
    let mut i: usize = 0;
    proof {
        assert(views_of(args@).skip(0) =~= views_of(args@));
    }
    while i < n
        invariant
            i <= n,
            n == args@.len(),
            flag_scan(views_of(args@), flag@) == flag_scan(
                views_of(args@).skip(i as int),
                flag@,
            ),
        decreases n - i,
    {
        let ghost av = views_of(args@);
        let ghost suf = av.skip(i as int);
        if args[i] == *flag && i + 1 < n {
            proof {
                assert(suf.len() >= 2);
                assert(suf[0] == flag@);
                assert(suf[1] == args@[i + 1]@);
            }
            if args[i + 1].as_str().is_empty() {
                return Option::None;
            }
            let w: String = args[i + 1].clone();
            return Option::Some(w);
        }
        proof {
            if suf.len() >= 2 {
                assert(suf[0] == args@[i as int]@);
                assert(suf[0] != flag@);
                assert(suf.drop_first() =~= av.skip(i as int + 1));
            } else {
                assert(av.skip(i as int + 1).len() < 2);
            }
        }
        i = i + 1;
    }
    proof {
        assert(views_of(args@).skip(i as int).len() < 2);
    }
    Option::None
}

/// The value of the `--word` flag: the value at the first occurrence of
/// the flag, and `None` when the flag is absent, stands last, or its
/// value is empty — a word must be supplied and non-empty.
pub fn extract_word_from_args(args: Vec<String>) -> (result: Option<String>)
    ensures
        match result {
            Option::Some(w) => flag_scan(views_of(args@), "--word"@) == Option::Some(w@),
            Option::None => flag_scan(views_of(args@), "--word"@) is None,
        },
{
    let flag: String = "--word".to_owned();
    find_flag_value(&args, &flag)
}

/// The value of the `--caesar_code` flag, under the same convention as
/// the word: `None` when the flag is absent, stands last, or its value
/// is empty.
pub fn extract_caesar_code_from_args(args: &Vec<String>) -> (result: Option<String>)
    ensures
        match result {
            Option::Some(w) => flag_scan(views_of(args@), "--caesar_code"@) == Option::Some(w@),
            Option::None => flag_scan(views_of(args@), "--caesar_code"@) is None,
        },
{
    let flag: String = "--caesar_code".to_owned();
    find_flag_value(args, &flag)
}

/// Recognise the operation name: exactly `"encode"` or `"decode"`, and
/// nothing else.
pub fn check_operation(operation_type: String) -> (result: Option<Operation>)
    ensures
        result == Option::Some(Operation::Encode) <==> operation_type@ == "encode"@,
        result == Option::Some(Operation::Decode) <==> operation_type@ == "decode"@,
        result is None <==> operation_type@ != "encode"@ && operation_type@ != "decode"@,
{
    proof {
        reveal_strlit("encode");
        reveal_strlit("decode");
        assert("encode"@ != "decode"@) by {
            assert("encode"@[0] != "decode"@[0]);
        }
    }
    let enc: String = "encode".to_owned();
    let dec: String = "decode".to_owned();
    if operation_type == enc {
        Option::Some(Operation::Encode)
    } else if operation_type == dec {
        Option::Some(Operation::Decode)
    } else {
        Option::None
    }
}

} // verus!
