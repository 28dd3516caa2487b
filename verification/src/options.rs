//! Parsing of configuration values that arrive as plain text.
//!
//! The command line itself is handled outside the core; the resolution
//! argument's value parser lives here so that its acceptance condition is
//! stated and proved exactly.

use vstd::prelude::*;
use vstd::slice::slice_subrange;
use vstd::string::StringSliceAdditionalSpecFns;

verus! {

/// ASCII code of the separator between width and height.
pub const SEP: u8 = 120;

/// Whether `c` is an ASCII decimal digit.
pub open spec fn is_digit(c: u8) -> bool {
    48 <= c <= 57
}

/// Whether every byte of `s` is an ASCII decimal digit.
pub open spec fn all_digits(s: Seq<u8>) -> bool {
    forall|i: int| 0 <= i < s.len() ==> is_digit(#[trigger] s[i])
}

/// The value of `s` read as a decimal numeral, most significant digit first.
pub open spec fn dec_val(s: Seq<u8>) -> int
    decreases s.len(),
{
    if s.len() == 0 {
        0
    } else {
        dec_val(s.drop_last()) * 10 + (s.last() - 48)
    }
}

/// Whether `s` contains the separator byte.
pub open spec fn has_sep(s: Seq<u8>) -> bool {
    exists|i: int| 0 <= i < s.len() && s[i] == SEP
}

/// Index of the first separator byte of `s`; meaningful only when `has_sep(s)`.
pub open spec fn sep_at(s: Seq<u8>) -> int {
    choose|i: int|
        0 <= i < s.len() && s[i] == SEP && (forall|j: int| 0 <= j < i ==> s[j] != SEP)
}

/// The bytes before the first separator.
pub open spec fn width_part(s: Seq<u8>) -> Seq<u8> {
    s.subrange(0, sep_at(s))
}

/// The bytes after the first separator.
pub open spec fn height_part(s: Seq<u8>) -> Seq<u8> {
    s.subrange(sep_at(s) + 1, s.len() as int)
}

/// Whether `s` is a numeral that fits the machine word: nonempty, all
/// digits, and no larger than `usize::MAX`.
pub open spec fn parses_as_usize(s: Seq<u8>) -> bool {
    s.len() > 0 && all_digits(s) && dec_val(s) <= usize::MAX
}

/// A numeral's value never shrinks when more digits follow.
proof fn lemma_dec_val_prefix_grows(s: Seq<u8>, i: int)
    requires
        0 <= i <= s.len(),
        all_digits(s),
    ensures
        dec_val(s.subrange(0, i)) <= dec_val(s),
    decreases s.len() - i,
{
    if i < s.len() {
        let t = s.subrange(0, i + 1);
        assert(t.drop_last() =~= s.subrange(0, i));
        assert(all_digits(s.subrange(0, i)));
        lemma_dec_val_nonneg(s.subrange(0, i));
        assert(dec_val(s.subrange(0, i)) <= dec_val(t));
        lemma_dec_val_prefix_grows(s, i + 1);
        assert(s.subrange(0, s.len() as int) =~= s);
    } else {
        assert(s.subrange(0, i) =~= s);
    }
}

/// A numeral of digits is never negative.
proof fn lemma_dec_val_nonneg(s: Seq<u8>)
    requires
        all_digits(s),
    ensures
        dec_val(s) >= 0,
    decreases s.len(),
{
    if s.len() > 0 {
        assert(all_digits(s.drop_last()));
        lemma_dec_val_nonneg(s.drop_last());
    }
}

/// Reads `s` as a decimal numeral. Succeeds exactly on nonempty all-digit
/// inputs whose value fits in `usize`, and then returns that value.
fn parse_usize(s: &[u8]) -> (r: Option<usize>)
    ensures
        r is Some <==> parses_as_usize(s@),
        r matches Some(v) ==> v == dec_val(s@),
{
    if s.len() == 0 {
        return None;
    }
    let mut acc: usize = 0;
    let mut i: usize = 0;
    while i < s.len()
        invariant
            0 <= i <= s@.len(),
            all_digits(s@.subrange(0, i as int)),
            acc == dec_val(s@.subrange(0, i as int)),
        decreases s@.len() - i,
    {
        let c = s[i];
        if c < 48 || c > 57 {
            assert(!all_digits(s@));
            return None;
        }
        let d = (c - 48) as usize;
        if acc > (usize::MAX - d) / 10 {
            proof {
                let t = s@.subrange(0, i + 1);
                assert(t.drop_last() =~= s@.subrange(0, i as int));
                assert(dec_val(t) == acc * 10 + d);
                assert(acc * 10 + d > usize::MAX) by {
                    assert(acc >= (usize::MAX - d) / 10 + 1);
                    assert(((usize::MAX - d) / 10 + 1) * 10 + d > usize::MAX) by (nonlinear_arith)
                        requires
                            0 <= d <= 9,
                    ;
                    assert(acc * 10 >= ((usize::MAX - d) / 10 + 1) * 10) by (nonlinear_arith)
                        requires
                            acc >= (usize::MAX - d) / 10 + 1,
                    ;
                }
                if all_digits(s@) {
                    assert(all_digits(t));
                    lemma_dec_val_prefix_grows(s@, i + 1);
                    assert(dec_val(s@) > usize::MAX);
                }
            }
            return None;
        }
        proof {
            let t = s@.subrange(0, i + 1);
            assert(t.drop_last() =~= s@.subrange(0, i as int));
            assert(acc * 10 + d <= usize::MAX) by {
                assert(acc <= (usize::MAX - d) / 10);
                assert(acc * 10 <= ((usize::MAX - d) / 10) * 10) by (nonlinear_arith)
                    requires
                        acc <= (usize::MAX - d) / 10,
                ;
                assert(((usize::MAX - d) / 10) * 10 + d <= usize::MAX) by (nonlinear_arith)
                    requires
                        0 <= d <= 9,
                ;
            }
        }
        acc = acc * 10 + d;
        i = i + 1;
    }
    proof {
        assert(s@.subrange(0, s@.len() as int) =~= s@);
        lemma_dec_val_nonneg(s@);
    }
    Some(acc)
}

/// Splits a `<width>x<height>` string at its first separator and reads both
/// sides as decimal numerals.
///
/// Returns `Ok((width, height))` exactly when the separator occurs and both
/// sides are nonempty digit strings whose values fit in `usize`; each error
/// message names the first condition that failed.
pub fn parse_resolution(s: &str) -> (r: Result<(usize, usize), String>)
    ensures
        r matches Ok((w, h)) ==> {
            &&& has_sep(s.spec_bytes())
            &&& parses_as_usize(width_part(s.spec_bytes()))
            &&& parses_as_usize(height_part(s.spec_bytes()))
            &&& w == dec_val(width_part(s.spec_bytes()))
            &&& h == dec_val(height_part(s.spec_bytes()))
        },
        r matches Err(e) ==> {
            ||| !has_sep(s.spec_bytes()) && e@ == "Expected <width>x<height>"@
            ||| has_sep(s.spec_bytes()) && !parses_as_usize(width_part(s.spec_bytes()))
                && e@ == "<width> must be an unsigned int"@
            ||| has_sep(s.spec_bytes()) && parses_as_usize(width_part(s.spec_bytes()))
                && !parses_as_usize(height_part(s.spec_bytes()))
                && e@ == "<height> must be an unsigned int"@
        },
{
    let b = s.as_bytes();
    let mut i: usize = 0;
    let mut found = false;
    while i < b.len() && !found
        invariant
            0 <= i <= b@.len(),
            b@ == s.spec_bytes(),
            forall|j: int| 0 <= j < i ==> b@[j] != SEP,
            found ==> i < b@.len() && b@[i as int] == SEP,
        decreases b@.len() - i + (if found { 0int } else { 1int }),
    {
        if b[i] == SEP {
            found = true;
        } else {
            i = i + 1;
        }
    }
    if !found {
        assert(!has_sep(s.spec_bytes()));
        return Err("Expected <width>x<height>".to_owned());
    }
    proof {
        assert(b@[i as int] == SEP && (forall|j: int| 0 <= j < i ==> b@[j] != SEP));
        assert(sep_at(b@) == i) by {
            let k = sep_at(b@);
            assert(0 <= k < b@.len() && b@[k] == SEP && (forall|j: int| 0 <= j < k ==> b@[j] != SEP));
            if k < i {
                assert(b@[k] != SEP);
            }
            if k > i {
                assert(b@[i as int] != SEP);
            }
        }
    }
    let wpart = slice_subrange(b, 0, i);
    let hpart = slice_subrange(b, i + 1, b.len());
    let w = match parse_usize(wpart) {
        Some(w) => w,
        None => {
            return Err("<width> must be an unsigned int".to_owned());
        },
    };
    let h = match parse_usize(hpart) {
        Some(h) => h,
        None => {
            return Err("<height> must be an unsigned int".to_owned());
        },
    };
    Ok((w, h))
}

} // verus!
