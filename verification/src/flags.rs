//! Command-line arguments one by one: flags with values, and folding a list of arguments.
use vstd::prelude::*;

use crate::error::{error2, error3, outcome, SimpleError};
use crate::number::{
    decimal, int_text, int_value, is_digit, lemma_decimal_digits, lemma_decimal_value, parse_count,
};
use crate::text::{chars_of, has_prefix, joined2, same, starts_with, texts, without_first, Text};

verus! {

/// The argument gives the flag a value: `--flag value` or `--flag=value`.
pub open spec fn flag_hit(arg: Text, flag: Text) -> bool {
    starts_with(arg, flag + "="@) || arg == flag
}

/// The value that a flag is given at place `i`, and the place behind it.
pub open spec fn flag_arg(args: Seq<Text>, i: int, flag: Text) -> Result<(Text, int), Text> {
    if starts_with(args[i], flag + "="@) {
        Ok((args[i].subrange((flag.len() + 1) as int, args[i].len() as int), i + 1))
    } else if i + 1 >= args.len() {
        Err(flag + " requires a value"@)
    } else {
        Ok((args[i + 1], i + 2))
    }
}

/// The argument gives the flag a value, under its long or its short name.
pub open spec fn short_hit(arg: Text, long: Text, short: Text) -> bool {
    flag_hit(arg, long) || arg == short
}

/// The value that a flag is given at place `i` under one of its names, and the place behind it.
/// Only the long name takes the value behind an equals sign.
pub open spec fn short_arg(args: Seq<Text>, i: int, long: Text, short: Text) -> Result<
    (Text, int),
    Text,
> {
    if flag_hit(args[i], long) {
        flag_arg(args, i, long)
    } else if i + 1 >= args.len() {
        Err(short + " requires a value"@)
    } else {
        Ok((args[i + 1], i + 2))
    }
}

/// What reading a flag's value came to: the value, if the flag stands there, and the next place.
pub open spec fn flag_outcome(r: Result<Option<String>, SimpleError>, next: usize) -> Result<
    Option<(Text, int)>,
    Text,
> {
    match r {
        Ok(Some(v)) => Ok(Some((v@, next as int))),
        Ok(None) => Ok(None),
        Err(e) => Err(e@),
    }
}

/// The value of a flag, where it stands at place `i`.
pub open spec fn wanted(hit: bool, arg: Result<(Text, int), Text>) -> Result<
    Option<(Text, int)>,
    Text,
> {
    if hit {
        match arg {
            Ok(v) => Ok(Some(v)),
            Err(e) => Err(e),
        }
    } else {
        Ok(None)
    }
}

/// Reads the value of a flag at place `i`, and moves `i` behind it; where the flag does not stand
/// there, `i` stays.
pub fn value_at(args: &[String], i: &mut usize, flag: &str) -> (r: Result<
    Option<String>,
    SimpleError,
>)
    requires
        *old(i) < args@.len(),
    ensures
        flag_outcome(r, *final(i)) == wanted(
            flag_hit(texts(args@)[*old(i) as int], flag@),
            flag_arg(texts(args@), *old(i) as int, flag@),
        ),
        !(r matches Ok(Some(_))) ==> *final(i) == *old(i),
{
    let at: usize = *i;
    let n: usize = args.len();
    let arg = &args[at];
    proof {
        assert(texts(args@)[at as int] == arg@);
    }
    let prefix = joined2(flag, "=");
    proof {
        reveal_strlit("=");
    }
    if has_prefix(arg.as_str(), prefix.as_str()) {
        let skip: usize = chars_of(prefix.as_str()).len();
        let value = without_first(arg.as_str(), skip);
        *i = at + 1;
        return Ok(Some(value));
    }
    if same(arg.as_str(), flag) {
        if at + 1 >= n {
            return Err(error2(flag, " requires a value"));
        }
        proof {
            assert(texts(args@)[at + 1] == args@[at + 1]@);
        }
        let value = args[at + 1].clone();
        *i = at + 2;
        return Ok(Some(value));
    }
    Ok(None)
}

/// Reads the value of a flag at place `i` under its long or its short name, and moves `i` behind
/// it; where the flag does not stand there, `i` stays.
pub fn value_or_short_at(
    args: &[String],
    i: &mut usize,
    long_flag: &str,
    short_flag: &str,
) -> (r: Result<Option<String>, SimpleError>)
    requires
        *old(i) < args@.len(),
    ensures
        flag_outcome(r, *final(i)) == wanted(
            short_hit(texts(args@)[*old(i) as int], long_flag@, short_flag@),
            short_arg(texts(args@), *old(i) as int, long_flag@, short_flag@),
        ),
        !(r matches Ok(Some(_))) ==> *final(i) == *old(i),
{
    let at: usize = *i;
    let n: usize = args.len();
    match value_at(args, i, long_flag) {
        Ok(None) => {},
        other => return other,
    }
    proof {
        assert(texts(args@)[at as int] == args@[at as int]@);
    }
    if same(args[at].as_str(), short_flag) {
        if at + 1 >= n {
            return Err(error2(short_flag, " requires a value"));
        }
        proof {
            assert(texts(args@)[at + 1] == args@[at + 1]@);
        }
        let value = args[at + 1].clone();
        *i = at + 2;
        return Ok(Some(value));
    }
    Ok(None)
}

/// Takes the flag at place `i` and the value behind it out of the arguments. Where there is no
/// value, the arguments stay as they are.
pub fn take_value(args: &mut Vec<String>, i: usize, flag: &str) -> (r: Result<String, SimpleError>)
    ensures
        if i + 1 >= old(args)@.len() {
            &&& outcome(r) == Err::<Text, Text>(flag@ + " requires a value"@)
            &&& final(args)@ == old(args)@
        } else {
            &&& outcome(r) == Ok::<Text, Text>(old(args)@[i + 1]@)
            &&& final(args)@ == old(args)@.remove(i + 1).remove(i as int)
        },
{
    let n: usize = args.len();
    if n == 0 || i >= n - 1 {
        return Err(error2(flag, " requires a value"));
    }
    let value = args.remove(i + 1);
    args.remove(i);
    Ok(value)
}

/// The number that is given for a flag, or the message that it is none.
pub open spec fn count_value(raw: Text, flag: Text) -> Result<usize, Text> {
    match int_value(raw, false, 0, usize::MAX as int) {
        Ok(v) => Ok(v as usize),
        Err(e) => Err("invalid integer for "@ + flag + ": "@ + e.spec_text()),
    }
}

/// The number that is given for a flag.
pub fn parse_usize(raw: String, flag: &str) -> (r: Result<usize, SimpleError>)
    ensures
        outcome(r) == count_value(raw@, flag@),
{
    match parse_count(raw.as_str()) {
        Ok(v) => Ok(v),
        Err(e) => {
            let head = joined2("invalid integer for ", flag);
            Err(error3(head.as_str(), ": ", e.text()))
        },
    }
}

/// One step over the arguments: from the place and what was gathered before it to what is gathered
/// behind it and the next place.
pub type Step<A> = spec_fn(Seq<Text>, int, A) -> Result<(A, int), Text>;

/// What all arguments from place `i` on come to: each step begins where the one before ended, and
/// the first error ends it.
pub open spec fn fold_args<A>(args: Seq<Text>, i: int, acc: A, step: Step<A>) -> Result<A, Text>
    decreases vstd::math::max(args.len() - i, 0),
{
    if i >= args.len() {
        Ok(acc)
    } else {
        match step(args, i, acc) {
            Err(e) => Err(e),
            Ok((next, j)) => if j > i {
                fold_args(args, j, next, step)
            } else {
                Ok(next)
            },
        }
    }
}

/// A step that takes the value of a flag as it is.
pub open spec fn text_step<A>(arg: Result<(Text, int), Text>, set: spec_fn(Text) -> A) -> Result<
    (A, int),
    Text,
> {
    match arg {
        Err(e) => Err(e),
        Ok((v, j)) => Ok((set(v), j)),
    }
}

/// A step that takes the value of a flag as something that is read from it.
pub open spec fn read_step<A, B>(
    arg: Result<(Text, int), Text>,
    read: spec_fn(Text) -> Result<B, Text>,
    set: spec_fn(B) -> A,
) -> Result<(A, int), Text> {
    match arg {
        Err(e) => Err(e),
        Ok((v, j)) => match read(v) {
            Err(e) => Err(e),
            Ok(b) => Ok((set(b), j)),
        },
    }
}

/// A flag is given the same value by `--flag=value` and by `--flag value`.
pub proof fn law_flag_forms_agree(before: Seq<Text>, flag: Text, value: Text, after: Seq<Text>)
    ensures
        ({
            let joined = before + seq![flag + "="@ + value] + after;
            let apart = before + seq![flag, value] + after;
            let i = before.len() as int;
            &&& flag_hit(joined[i], flag) && flag_hit(apart[i], flag)
            &&& flag_arg(joined, i, flag) == Ok::<(Text, int), Text>((value, i + 1))
            &&& flag_arg(apart, i, flag) == Ok::<(Text, int), Text>((value, i + 2))
        }),
{
    let joined = before + seq![flag + "="@ + value] + after;
    let apart = before + seq![flag, value] + after;
    let i = before.len() as int;
    let arg = flag + "="@ + value;
    reveal_strlit("=");
    assert(joined[i] == arg);
    assert(arg.subrange(0, (flag + "="@).len() as int) =~= flag + "="@);
    assert(arg.subrange((flag.len() + 1) as int, arg.len() as int) =~= value);
    assert(apart[i] == flag && apart[i + 1] == value);
    assert(!starts_with(flag, flag + "="@));
}

/// A number that is written in decimal is what the flag is given.
pub proof fn law_written_count_is_read(n: usize, flag: Text)
    ensures
        count_value(int_text(n as int), flag) == Ok::<usize, Text>(n),
        count_value(Seq::empty(), flag) is Err,
{
    lemma_decimal_digits(n as nat);
    lemma_decimal_value(n as nat, false, 0, usize::MAX as int);
    assert(is_digit(decimal(n as nat)[0]));
}

/// A flag is given the argument that stands behind it, and what is read next stands behind both; the
/// last argument cannot be one that needs a value.
pub proof fn law_flag_takes_the_argument_behind_it(
    args: Seq<Text>,
    i: int,
    long: Text,
    short: Text,
)
    requires
        0 <= i < args.len(),
    ensures
        args[i] == long && i + 1 < args.len() ==> flag_arg(args, i, long) == Ok::<
            (Text, int),
            Text,
        >((args[i + 1], i + 2)),
        args[i] == long && i + 1 == args.len() ==> flag_arg(args, i, long) == Err::<
            (Text, int),
            Text,
        >(long + " requires a value"@),
        flag_hit(args[i], long) ==> short_arg(args, i, long, short) == flag_arg(args, i, long),
        args[i] == short && !flag_hit(args[i], long) && i + 1 < args.len() ==> short_arg(
            args,
            i,
            long,
            short,
        ) == Ok::<(Text, int), Text>((args[i + 1], i + 2)),
        args[i] == short && !flag_hit(args[i], long) && i + 1 == args.len() ==> short_arg(
            args,
            i,
            long,
            short,
        ) == Err::<(Text, int), Text>(short + " requires a value"@),
        args[i] == long || args[i] == short ==> short_hit(args[i], long, short),
{
    reveal_strlit("=");
}

} // verus!
