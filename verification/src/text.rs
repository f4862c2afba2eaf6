//! Verified text utilities: string/character conversions, decimal rendering
//! of scaled integers, and placeholder substitution for webhook templates.

use vstd::prelude::*;

verus! {

use vstd::std_specs::iter::IteratorSpec;

broadcast use vstd::string::next_postcondition, vstd::string::axiom_spec_iter;

/// Whether a string equals a literal, stated over the character views.
pub fn eq_str(a: &String, b: &str) -> (r: bool)
    ensures
        r == (a@ == b@),
{
    *a == b.to_owned()
}

/// The characters of a string slice, in order.
pub fn str_to_chars(s: &str) -> (r: Vec<char>)
    ensures
        r@ == s@,
{
    let mut it = s.chars();
    let mut out: Vec<char> = Vec::new();
    loop
        invariant
            it.obeys_prophetic_iter_laws(),
            it.decrease() is Some,
            out@ + it.remaining() == s@,
        ensures
            out@ == s@,
        decreases it.decrease()->0,
    {
        let ghost prev = it.remaining();
        match it.next() {
            Some(c) => {
                out.push(c);
                proof {
                    assert(out@ + it.remaining() =~= s@);
                }
            },
            None => {
                proof {
                    assert(prev.len() == 0);
                    assert(out@ =~= s@);
                }
                break;
            },
        }
    }
    out
}

/// Appends one character to a string.
/// Relies on `String::push`: appends exactly the given character.
#[verifier::external_body]
pub fn push_char(s: &mut String, c: char) -> (u: ())
    ensures
        final(s)@ == old(s)@.push(c),
{
    s.push(c)
}

/// The decimal digit character for `d` in `0 ..= 9`.
pub open spec fn spec_digit(d: int) -> char {
    if d == 0 {
        '0'
    } else if d == 1 {
        '1'
    } else if d == 2 {
        '2'
    } else if d == 3 {
        '3'
    } else if d == 4 {
        '4'
    } else if d == 5 {
        '5'
    } else if d == 6 {
        '6'
    } else if d == 7 {
        '7'
    } else if d == 8 {
        '8'
    } else {
        '9'
    }
}

/// The decimal digits of a non-negative integer, most significant first.
pub open spec fn spec_decimal(n: int) -> Seq<char>
    decreases n,
{
    if n < 10 {
        seq![spec_digit(n)]
    } else {
        spec_decimal(n / 10).push(spec_digit(n % 10))
    }
}

fn digit_str(d: u64) -> (s: &'static str)
    requires
        d < 10,
    ensures
        s@ == seq![spec_digit(d as int)],
{
    let s: &'static str = if d == 0 {
        "0"
    } else if d == 1 {
        "1"
    } else if d == 2 {
        "2"
    } else if d == 3 {
        "3"
    } else if d == 4 {
        "4"
    } else if d == 5 {
        "5"
    } else if d == 6 {
        "6"
    } else if d == 7 {
        "7"
    } else if d == 8 {
        "8"
    } else {
        "9"
    };
    proof {
        reveal_strlit("0");
        reveal_strlit("1");
        reveal_strlit("2");
        reveal_strlit("3");
        reveal_strlit("4");
        reveal_strlit("5");
        reveal_strlit("6");
        reveal_strlit("7");
        reveal_strlit("8");
        reveal_strlit("9");
        assert(s@ =~= seq![spec_digit(d as int)]);
    }
    s
}

/// Renders a non-negative integer in decimal.
pub fn u64_to_string(n: u64) -> (s: String)
    ensures
        s@ == spec_decimal(n as int),
    decreases n,
{
    if n < 10 {
        digit_str(n).to_owned()
    } else {
        let mut s = u64_to_string(n / 10);
        s.append(digit_str(n % 10));
        proof {
            assert(s@ =~= spec_decimal(n as int));
        }
        s
    }
}

/// The decimal rendering of a signed integer.
pub open spec fn spec_decimal_i64(n: int) -> Seq<char> {
    if n < 0 {
        seq!['-'] + spec_decimal(-n)
    } else {
        spec_decimal(n)
    }
}

/// Renders a signed integer in decimal.
pub fn i64_to_string(n: i64) -> (s: String)
    ensures
        s@ == spec_decimal_i64(n as int),
{
    if n < 0 {
        let mag: u64 = (-(n as i128)) as u64;
        let mut s = "-".to_owned();
        let digits = u64_to_string(mag);
        s.append(digits.as_str());
        proof {
            reveal_strlit("-");
            assert(s@ =~= spec_decimal_i64(n as int));
        }
        s
    } else {
        u64_to_string(n as u64)
    }
}

/// How a value held in hundredths prints as a plain decimal number:
/// the fractional part is omitted when zero and trailing zeros are trimmed,
/// as a floating-point value prints.
pub open spec fn spec_centi_decimal(c: int) -> Seq<char> {
    let sign: Seq<char> = if c < 0 {
        seq!['-']
    } else {
        Seq::<char>::empty()
    };
    let m = if c < 0 {
        -c
    } else {
        c
    };
    let whole = spec_decimal(m / 100);
    let fr = m % 100;
    if fr == 0 {
        sign + whole
    } else if fr % 10 == 0 {
        sign + whole + seq!['.'] + seq![spec_digit(fr / 10)]
    } else {
        sign + whole + seq!['.'] + seq![spec_digit(fr / 10), spec_digit(fr % 10)]
    }
}

/// Renders a value held in hundredths as a plain decimal number.
pub fn centi_to_string(c: i64) -> (s: String)
    ensures
        s@ == spec_centi_decimal(c as int),
{
    let mag: u64 = if c < 0 {
        (-(c as i128)) as u64
    } else {
        c as u64
    };
    let mut s: String = if c < 0 {
        "-".to_owned()
    } else {
        "".to_owned()
    };
    proof {
        reveal_strlit("-");
        reveal_strlit("");
    }
    let whole = u64_to_string(mag / 100);
    s.append(whole.as_str());
    let fr = mag % 100;
    if fr != 0 {
        s.append(".");
        proof {
            reveal_strlit(".");
        }
        if fr % 10 == 0 {
            s.append(digit_str(fr / 10));
        } else {
            s.append(digit_str(fr / 10));
            s.append(digit_str(fr % 10));
        }
    }
    proof {
        assert(s@ =~= spec_centi_decimal(c as int));
    }
    s
}

/// How a value held in hundredths prints with exactly two decimal places.
pub open spec fn spec_centi_fixed2(c: int) -> Seq<char>
    recommends
        c >= 0,
{
    spec_decimal(c / 100) + seq!['.', spec_digit((c / 10) % 10), spec_digit(c % 10)]
}

/// Renders a non-negative value held in hundredths with exactly two
/// decimal places.
pub fn centi_to_fixed2(c: u64) -> (s: String)
    ensures
        s@ == spec_centi_fixed2(c as int),
{
    let mut s = u64_to_string(c / 100);
    s.append(".");
    proof {
        reveal_strlit(".");
    }
    s.append(digit_str((c / 10) % 10));
    s.append(digit_str(c % 10));
    proof {
        assert(s@ =~= spec_centi_fixed2(c as int));
    }
    s
}

/// The string with every non-overlapping occurrence of `pat`, found left to
/// right, replaced by `sub`. An empty pattern leaves the string unchanged.
pub open spec fn spec_replace(s: Seq<char>, pat: Seq<char>, sub: Seq<char>) -> Seq<char>
    decreases s.len(),
{
    if pat.len() == 0 || s.len() < pat.len() {
        s
    } else if s.subrange(0, pat.len() as int) == pat {
        sub + spec_replace(s.skip(pat.len() as int), pat, sub)
    } else {
        seq![s[0]] + spec_replace(s.skip(1), pat, sub)
    }
}

/// Whether `pat` occurs in `s` at position `i`.
fn match_at(s: &Vec<char>, i: usize, pat: &Vec<char>) -> (r: bool)
    requires
        i + pat@.len() <= s@.len(),
    ensures
        r == (s@.subrange(i as int, i + pat@.len()) == pat@),
{
    let slen = s.len();
    let mut k: usize = 0;
    while k < pat.len()
        invariant
            i + pat@.len() <= s@.len(),
            s@.len() == slen,
            k <= pat@.len(),
            forall|j: int| 0 <= j < k ==> s@[i + j] == pat@[j],
        decreases pat@.len() - k,
    {
        if s[i + k] != pat[k] {
            proof {
                assert(s@.subrange(i as int, i + pat@.len())[k as int] != pat@[k as int]);
            }
            return false;
        }
        k += 1;
    }
    proof {
        assert(s@.subrange(i as int, i + pat@.len()) =~= pat@);
    }
    true
}

/// Replaces every non-overlapping occurrence of `pat` in `s` by `sub`,
/// scanning left to right.
pub fn replace_all(s: &str, pat: &str, sub: &str) -> (r: String)
    ensures
        r@ == spec_replace(s@, pat@, sub@),
{
    let sc = str_to_chars(s);
    let pc = str_to_chars(pat);
    let mut out = String::new();
    let mut i: usize = 0;
    if pc.len() == 0 {
        return s.to_owned();
    }
    proof {
        assert(sc@.skip(0) =~= sc@);
        assert(Seq::<char>::empty() + spec_replace(s@, pat@, sub@) =~= spec_replace(
            s@,
            pat@,
            sub@,
        ));
    }
    while i < sc.len()
        invariant
            pc@.len() > 0,
            sc@ == s@,
            pc@ == pat@,
            i <= sc@.len(),
            spec_replace(s@, pat@, sub@) == out@ + spec_replace(sc@.skip(i as int), pat@, sub@),
        decreases sc@.len() - i,
    {
        let ghost rem = sc@.skip(i as int);
        let ghost pre = out@;
        if pc.len() <= sc.len() - i && match_at(&sc, i, &pc) {
            proof {
                assert(rem.subrange(0, pat@.len() as int) =~= sc@.subrange(
                    i as int,
                    i + pat@.len(),
                ));
                assert(rem.skip(pat@.len() as int) =~= sc@.skip(i + pat@.len()));
            }
            out.append(sub);
            i += pc.len();
            proof {
                assert(pre + (sub@ + spec_replace(sc@.skip(i as int), pat@, sub@)) =~= (pre
                    + sub@) + spec_replace(sc@.skip(i as int), pat@, sub@));
            }
        } else {
            proof {
                if i + pat@.len() <= sc@.len() {
                    assert(rem.subrange(0, pat@.len() as int) =~= sc@.subrange(
                        i as int,
                        i + pat@.len(),
                    ));
                }
                assert(rem.skip(1) =~= sc@.skip(i + 1));
                assert(seq![rem[0]] =~= seq![sc@[i as int]]);
            }
            let c = sc[i];
            push_char(&mut out, c);
            i += 1;
            proof {
                assert(pre + (seq![sc@[i - 1]] + spec_replace(sc@.skip(i as int), pat@, sub@))
                    =~= pre.push(sc@[i - 1]) + spec_replace(sc@.skip(i as int), pat@, sub@));
            }
        }
    }
    proof {
        assert(sc@.skip(i as int) =~= Seq::<char>::empty());
        assert(out@ + Seq::<char>::empty() =~= out@);
    }
    out
}

} // verus!
