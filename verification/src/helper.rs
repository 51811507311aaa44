use vstd::prelude::*;

verus! {

/// The decimal digit a character stands for, if any.  Only the ASCII
/// digits count: other characters never reach a number's decimal text.
pub open spec fn spec_digit_of(c: char) -> Option<u64> {
    if 48 <= c as u32 <= 57 {
        Some((c as u32 - 48) as u64)
    } else {
        None
    }
}

/// Appending a digit to a number's decimal text: the number grows tenfold
/// plus the digit, unless the result would not fit, in which case the text
/// no longer parses and the number stays.
pub open spec fn spec_push_digit(n: u64, d: u64) -> u64 {
    if n * 10 + d > u64::MAX {
        n
    } else {
        (n * 10 + d) as u64
    }
}

/// Adds a digit character to a numeric if one is given, otherwise removes
/// the last digit of its decimal text.  A character that is no digit
/// changes nothing; removing the last remaining digit leaves zero.
pub fn add_or_remove_char_from_numeric(numeric: &mut u64, ch: Option<char>)
    ensures
        *final(numeric) == match ch {
            Some(c) => match spec_digit_of(c) {
                Some(d) => spec_push_digit(*old(numeric), d),
                None => *old(numeric),
            },
            None => *old(numeric) / 10,
        },
{
    match ch {
        Some(c) => {
            let code = c as u32;
            if code < 48 || code > 57 {
                return ;
            }
            let d = (code - 48) as u64;
            match numeric.checked_mul(10) {
                Some(times_ten) => match times_ten.checked_add(d) {
                    Some(grown) => {
                        *numeric = grown;
                    },
                    None => {},
                },
                None => {},
            }
        },
        None => {
            *numeric = *numeric / 10;
        },
    }
}

/// Adds a digit character to an optional numeric if one is given,
/// otherwise removes the last digit of its decimal text.  Removing the
/// last remaining digit leaves nothing.
pub fn add_or_remove_char_from_opt_numeric(numeric: &mut Option<u64>, ch: Option<char>)
    ensures
        *final(numeric) == match ch {
            Some(c) => match spec_digit_of(c) {
                Some(d) => match *old(numeric) {
                    Some(n) => Some(spec_push_digit(n, d)),
                    None => Some(d),
                },
                None => *old(numeric),
            },
            None => match *old(numeric) {
                Some(n) => if n >= 10 {
                    Some(n / 10)
                } else {
                    None
                },
                None => None,
            },
        },
{
    match ch {
        Some(c) => {
            let code = c as u32;
            if code < 48 || code > 57 {
                return ;
            }
            let d = (code - 48) as u64;
            match *numeric {
                Some(n) => {
                    match n.checked_mul(10) {
                        Some(times_ten) => match times_ten.checked_add(d) {
                            Some(grown) => {
                                *numeric = Some(grown);
                            },
                            None => {},
                        },
                        None => {},
                    }
                },
                None => {
                    *numeric = Some(d);
                },
            }
        },
        None => {
            match *numeric {
                Some(n) => {
                    if n >= 10 {
                        *numeric = Some(n / 10);
                    } else {
                        *numeric = None;
                    }
                },
                None => {},
            }
        },
    }
}

/// Adds a character to a path if one is given.  Otherwise removes the last
/// character, but only when more than `nprotect` characters would remain
/// untouched; an empty path stays empty.
pub fn add_or_remove_char_from_path(path: &mut Vec<char>, ch: Option<char>, nprotect: usize)
    ensures
        final(path)@ == match ch {
            Some(c) => old(path)@.push(c),
            None => if old(path)@.len() == 0 || old(path)@.len() - 1 < nprotect {
                old(path)@
            } else {
                old(path)@.drop_last()
            },
        },
{
    match ch {
        Some(c) => {
            path.push(c);
        },
        None => {
            if path.len() == 0 {
                return ;
            }
            if path.len() - 1 < nprotect {
                return ;
            }
            path.pop();
            assert(path@ =~= old(path)@.drop_last());
        },
    }
}

/// Sets a boolean to true or false when the character is 't'/'T' or
/// 'f'/'F'; any other character leaves it alone, and no character toggles
/// it.
pub fn add_or_remove_char_from_bool(b: &mut bool, ch: Option<char>)
    ensures
        *final(b) == match ch {
            Some(c) => if c == 't' || c == 'T' {
                true
            } else if c == 'f' || c == 'F' {
                false
            } else {
                *old(b)
            },
            None => !*old(b),
        },
{
    match ch {
        Some(c) => {
            if c == 't' || c == 'T' {
                *b = true;
            } else if c == 'f' || c == 'F' {
                *b = false;
            }
        },
        None => {
            *b = !*b;
        },
    }
}

} // verus!
