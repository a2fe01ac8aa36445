//! Decimal rendering and the names given to classified files.

use vstd::prelude::*;

verus! {

/// Relies on std's String::push: appends the character to the end.
pub assume_specification[ String::push ](s: &mut String, ch: char)
    ensures
        final(s)@ == old(s)@.push(ch),
;

/// The character of a decimal digit.
pub open spec fn digit_char(d: nat) -> char {
    if d == 0 {
        '0'
    } else if d == 1 {
        '1'
    } else if d == 2 {
        '2'
    } else if d == 3 {
        '3'
    } else if d == 4 {
        '4'
    } else if d == 5 {
        '5'
    } else if d == 6 {
        '6'
    } else if d == 7 {
        '7'
    } else if d == 8 {
        '8'
    } else {
        '9'
    }
}

/// The decimal rendering of `n`, without sign or leading zeros.
pub open spec fn decimal(n: nat) -> Seq<char>
    decreases n,
{
    if n < 10 {
        seq![digit_char(n)]
    } else {
        decimal(n / 10).push(digit_char(n % 10))
    }
}

fn digit_str(d: u64) -> (r: &'static str)
    requires
        d < 10,
    ensures
        r@ == seq![digit_char(d as nat)],
{
    proof {
        reveal_strlit("0");
        reveal_strlit("1");
        reveal_strlit("2");
        reveal_strlit("3");
        reveal_strlit("4");
        reveal_strlit("5");
        reveal_strlit("6");
        reveal_strlit("7");
        reveal_strlit("8");
        reveal_strlit("9");
    }
    if d == 0 {
        "0"
    } else if d == 1 {
        "1"
    } else if d == 2 {
        "2"
    } else if d == 3 {
        "3"
    } else if d == 4 {
        "4"
    } else if d == 5 {
        "5"
    } else if d == 6 {
        "6"
    } else if d == 7 {
        "7"
    } else if d == 8 {
        "8"
    } else {
        "9"
    }
}

/// Appends the decimal rendering of `n` to `s`.
pub fn push_decimal(s: &mut String, n: u64)
    ensures
        final(s)@ == old(s)@ + decimal(n as nat),
    decreases n,
{
    if n >= 10 {
        push_decimal(s, n / 10);
    }
    s.append(digit_str(n % 10));
    proof {
        if n >= 10 {
            assert(decimal(n as nat) == decimal((n / 10) as nat).push(digit_char((n % 10) as nat)));
        }
        assert(s@ =~= old(s)@ + decimal(n as nat));
    }
}

/// A rendering is never empty.
pub proof fn lemma_decimal_nonempty(n: nat)
    ensures
        decimal(n).len() >= 1,
        n >= 10 ==> decimal(n).len() >= 2,
    decreases n,
{
    if n >= 10 {
        lemma_decimal_nonempty(n / 10);
    }
}

/// Distinct numbers have distinct renderings.
pub proof fn lemma_decimal_injective(i: nat, j: nat)
    requires
        decimal(i) == decimal(j),
    ensures
        i == j,
    decreases i,
{
    lemma_decimal_nonempty(i);
    lemma_decimal_nonempty(j);
    if i >= 10 && j >= 10 {
        lemma_digit_code(i % 10);
        lemma_digit_code(j % 10);
        assert(decimal(i).last() == digit_char(i % 10));
        assert(decimal(j).last() == digit_char(j % 10));
        assert(decimal(i).drop_last() =~= decimal(i / 10));
        assert(decimal(j).drop_last() =~= decimal(j / 10));
        lemma_decimal_injective(i / 10, j / 10);
    } else if i < 10 && j < 10 {
        lemma_digit_code(i);
        lemma_digit_code(j);
        assert(decimal(i)[0] == digit_char(i) && decimal(j)[0] == digit_char(j));
    } else if i < 10 {
        assert(decimal(i).len() == 1);
    } else {
        assert(decimal(j).len() == 1);
    }
}

/// A digit's character has the code of `0` plus the digit.
pub proof fn lemma_digit_code(d: nat)
    requires
        d < 10,
    ensures
        digit_char(d) as u32 == 48 + d,
{
}

/// Every character of a rendering is a digit, with a code from that of `0`
/// to that of `9`.
pub proof fn lemma_decimal_digits(n: nat)
    ensures
        forall|k: int| 0 <= k < decimal(n).len() ==> 48 <= #[trigger] decimal(n)[k] as u32 <= 57,
    decreases n,
{
    if n < 10 {
        lemma_digit_code(n);
        assert(decimal(n) == seq![digit_char(n)]);
    } else {
        lemma_decimal_digits(n / 10);
        lemma_digit_code(n % 10);
        let p = decimal(n / 10);
        assert(decimal(n) == p.push(digit_char(n % 10)));
        assert forall|k: int| 0 <= k < decimal(n).len() implies 48 <= #[trigger] decimal(n)[k] as u32
            <= 57 by {
            if k < p.len() {
                assert(decimal(n)[k] == p[k]);
            }
        }
    }
}

/// The suffix that carries an extension: a dot and the extension, or
/// nothing when the file has none.
pub open spec fn extension_suffix_of(ext: Option<Seq<char>>) -> Seq<char> {
    match ext {
        Some(e) => seq!['.'] + e,
        None => Seq::empty(),
    }
}

/// Builds the suffix that carries a file's extension.
pub fn extension_suffix(ext: Option<&str>) -> (r: String)
    ensures
        r@ == extension_suffix_of(
            match ext {
                Some(e) => Some(e@),
                None => None,
            },
        ),
{
    let mut r = String::new();
    match ext {
        Some(e) => {
            proof {
                reveal_strlit(".");
            }
            r.append(".");
            r.append(e);
            assert(r@ =~= seq!['.'] + e@);
        },
        None => {},
    }
    r
}

/// The name tried at probe `attempt`: the bare stem for the first probe,
/// then the stem followed by the attempt number, always with the suffix.
pub open spec fn candidate_of(stem: Seq<char>, suffix: Seq<char>, attempt: nat) -> Seq<char> {
    if attempt == 0 {
        stem + suffix
    } else {
        stem + decimal(attempt) + suffix
    }
}

/// Builds the name tried at probe `attempt`.
pub fn candidate_name(stem: &str, suffix: &str, attempt: u64) -> (r: String)
    ensures
        r@ == candidate_of(stem@, suffix@, attempt as nat),
{
    let mut r = String::new();
    r.append(stem);
    if attempt != 0 {
        push_decimal(&mut r, attempt);
    }
    r.append(suffix);
    assert(r@ =~= candidate_of(stem@, suffix@, attempt as nat));
    r
}

/// Distinct probes yield distinct names.
pub proof fn lemma_candidate_injective(stem: Seq<char>, suffix: Seq<char>, i: nat, j: nat)
    requires
        candidate_of(stem, suffix, i) == candidate_of(stem, suffix, j),
    ensures
        i == j,
{
    lemma_decimal_nonempty(i);
    lemma_decimal_nonempty(j);
    let a = candidate_of(stem, suffix, i);
    let b = candidate_of(stem, suffix, j);
    if i != 0 && j != 0 {
        assert(a =~= stem + decimal(i) + suffix);
        assert(b =~= stem + decimal(j) + suffix);
        assert(a == b);
        assert(a.len() == stem.len() + decimal(i).len() + suffix.len());
        assert(b.len() == stem.len() + decimal(j).len() + suffix.len());
        assert(decimal(i).len() == decimal(j).len());
        let lo = stem.len() as int;
        let hi = lo + decimal(i).len();
        assert(a.subrange(lo, hi) =~= decimal(i));
        assert(b.subrange(lo, hi) =~= decimal(j));
        lemma_decimal_injective(i, j);
    } else if i != 0 || j != 0 {
        assert(a.len() != b.len());
    }
}

} // verus!
