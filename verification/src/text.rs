//! Character-level helpers shared by the pipeline: ASCII classification,
//! header-cell normalization (trim and case fold), the calendar-date shape
//! check, and rendering of row numbers as decimal digit strings.

use vstd::prelude::*;

verus! {

/// ASCII decimal digit.
pub open spec fn is_digit(c: char) -> bool {
    48 <= c as u32 && c as u32 <= 57
}

/// Numeric value of an ASCII digit.
pub open spec fn digit_val(c: char) -> nat {
    (c as u32 - 48) as nat
}

/// Whitespace trimmed from header cells: the Unicode White_Space code
/// points, the same set a standard trim removes.
pub open spec fn is_space(c: char) -> bool {
    let u = c as u32;
    ||| (9 <= u && u <= 13)
    ||| u == 32
    ||| u == 0x85
    ||| u == 0xA0
    ||| u == 0x1680
    ||| (0x2000 <= u && u <= 0x200A)
    ||| u == 0x2028
    ||| u == 0x2029
    ||| u == 0x202F
    ||| u == 0x205F
    ||| u == 0x3000
}

/// Case folding on code points: ASCII capital letters map to their lower-case
/// counterparts, every other character is unchanged. The canonical column
/// names are ASCII, and no non-ASCII letter folds into an ASCII one, so the
/// fold decides their matches exactly.
pub open spec fn fold_cp(c: char) -> u32 {
    if 65 <= c as u32 && c as u32 <= 90 {
        ((c as u32) + 32) as u32
    } else {
        c as u32
    }
}

/// Number of leading whitespace characters of `s`.
pub open spec fn lead_spaces(s: Seq<char>) -> int
    decreases s.len(),
{
    if s.len() == 0 {
        0
    } else if is_space(s[0]) {
        1 + lead_spaces(s.drop_first())
    } else {
        0
    }
}

/// Number of trailing whitespace characters of `s`.
pub open spec fn trail_spaces(s: Seq<char>) -> int
    decreases s.len(),
{
    if s.len() == 0 {
        0
    } else if is_space(s.last()) {
        1 + trail_spaces(s.drop_last())
    } else {
        0
    }
}

/// `s` with leading and trailing whitespace removed.
pub open spec fn trim(s: Seq<char>) -> Seq<char> {
    if lead_spaces(s) == s.len() {
        Seq::empty()
    } else {
        s.subrange(lead_spaces(s), s.len() - trail_spaces(s))
    }
}

/// The normalized form of a header cell: whitespace trimmed from both ends,
/// then each character folded to its case-insensitive code point.
pub open spec fn norm_cp(s: Seq<char>) -> Seq<u32> {
    Seq::new(trim(s).len(), |i: int| fold_cp(trim(s)[i]))
}

pub proof fn lemma_lead_spaces(s: Seq<char>)
    ensures
        0 <= lead_spaces(s) <= s.len(),
        forall|i: int| 0 <= i < lead_spaces(s) ==> is_space(s[i]),
        lead_spaces(s) < s.len() ==> !is_space(s[lead_spaces(s)]),
    decreases s.len(),
{
    if s.len() == 0 {
    } else if is_space(s[0]) {
        lemma_lead_spaces(s.drop_first());
        assert forall|i: int| 0 <= i < lead_spaces(s) implies is_space(s[i]) by {
            if i > 0 {
                assert(s.drop_first()[i - 1] == s[i]);
                assert(is_space(s.drop_first()[i - 1]));
            }
        }
        if lead_spaces(s) < s.len() {
            assert(s.drop_first()[lead_spaces(s) - 1] == s[lead_spaces(s)]);
        }
    }
}

pub proof fn lemma_trail_spaces(s: Seq<char>)
    ensures
        0 <= trail_spaces(s) <= s.len(),
        forall|i: int| s.len() - trail_spaces(s) <= i < s.len() ==> is_space(s[i]),
        trail_spaces(s) < s.len() ==> !is_space(s[s.len() - 1 - trail_spaces(s)]),
    decreases s.len(),
{
    if s.len() == 0 {
    } else if is_space(s.last()) {
        lemma_trail_spaces(s.drop_last());
        assert forall|i: int| s.len() - trail_spaces(s) <= i < s.len() implies is_space(s[i]) by {
            if i < s.len() - 1 {
                assert(s.drop_last()[i] == s[i]);
                assert(is_space(s.drop_last()[i]));
            }
        }
        if trail_spaces(s) < s.len() {
            assert(s.drop_last()[s.len() - 2 - (trail_spaces(s) - 1)] == s[s.len() - 1
                - trail_spaces(s)]);
        }
    }
}

/// When some character of `s` is not whitespace, the trimmed region is
/// non-empty and its bounds are in order.
pub proof fn lemma_trim_bounds(s: Seq<char>)
    ensures
        lead_spaces(s) < s.len() ==> lead_spaces(s) + trail_spaces(s) < s.len(),
{
    lemma_lead_spaces(s);
    lemma_trail_spaces(s);
    if lead_spaces(s) < s.len() {
        // The character at `lead_spaces(s)` is not whitespace, so the
        // trailing run cannot reach it.
        if lead_spaces(s) + trail_spaces(s) >= s.len() {
            assert(is_space(s[lead_spaces(s)]));
        }
    }
}

fn is_space_x(c: char) -> (r: bool)
    ensures
        r == is_space(c),
{
    let u = c as u32;
    (9 <= u && u <= 13) || u == 32 || u == 0x85 || u == 0xA0 || u == 0x1680
        || (0x2000 <= u && u <= 0x200A) || u == 0x2028 || u == 0x2029 || u == 0x202F
        || u == 0x205F || u == 0x3000
}

fn fold_x(c: char) -> (r: u32)
    ensures
        r == fold_cp(c),
{
    let u = c as u32;
    if 65 <= u && u <= 90 {
        u + 32
    } else {
        u
    }
}

/// Bounds of the trimmed region of `s`: `trim(s@)` is `s@` between them.
fn trim_bounds(s: &str) -> (r: (usize, usize))
    ensures
        r.0 <= r.1 <= s@.len(),
        trim(s@) == s@.subrange(r.0 as int, r.1 as int),
{
    let n = s.unicode_len();
    let mut a: usize = 0;
    while a < n && is_space_x(s.get_char(a))
        invariant
            a <= n,
            n == s@.len(),
            forall|j: int| 0 <= j < a ==> is_space(s@[j]),
        decreases n - a,
    {
        a += 1;
    }
    proof {
        lemma_lead_spaces(s@);
        if lead_spaces(s@) < a {
            assert(is_space(s@[lead_spaces(s@)]));
            assert(false);
        }
        if lead_spaces(s@) > a {
            assert(is_space(s@[a as int]));
            assert(false);
        }
        assert(lead_spaces(s@) == a);
    }
    if a == n {
        proof {
            assert(trim(s@) =~= s@.subrange(n as int, n as int));
        }
        return (n, n);
    }
    let mut b: usize = n;
    while b > a && is_space_x(s.get_char(b - 1))
        invariant
            a <= b <= n,
            n == s@.len(),
            forall|j: int| b <= j < n ==> is_space(s@[j]),
        decreases b,
    {
        b -= 1;
    }
    proof {
        lemma_trail_spaces(s@);
        lemma_trim_bounds(s@);
        if b == a {
            assert(is_space(s@[a as int]));
            assert(false);
        }
        assert(!is_space(s@[b - 1]));
        let t = trail_spaces(s@);
        if t > n - b {
            assert(is_space(s@[b - 1]));
            assert(false);
        }
        if t < n - b {
            assert(is_space(s@[n - 1 - t]));
            assert(false);
        }
        assert(trim(s@) == s@.subrange(a as int, b as int));
    }
    (a, b)
}

/// Whether two cells have the same normalized form: equal after trimming
/// surrounding whitespace and folding ASCII case.
pub fn matches_name(cell: &str, name: &str) -> (r: bool)
    ensures
        r == (norm_cp(cell@) == norm_cp(name@)),
{
    let (a0, a1) = trim_bounds(cell);
    let (b0, b1) = trim_bounds(name);
    let len = a1 - a0;
    if len != b1 - b0 {
        proof {
            assert(norm_cp(cell@).len() == a1 - a0);
            assert(norm_cp(name@).len() == b1 - b0);
        }
        return false;
    }
    let mut k: usize = 0;
    while k < len
        invariant
            k <= len,
            len == a1 - a0 == b1 - b0,
            a0 + len <= cell@.len(),
            b0 + len <= name@.len(),
            trim(cell@) == cell@.subrange(a0 as int, a1 as int),
            trim(name@) == name@.subrange(b0 as int, b1 as int),
            forall|j: int| 0 <= j < k ==> fold_cp(trim(cell@)[j]) == fold_cp(trim(name@)[j]),
        decreases len - k,
    {
        let ca = cell.get_char(a0 + k);
        let cb = name.get_char(b0 + k);
        if fold_x(ca) != fold_x(cb) {
            proof {
                assert(trim(cell@)[k as int] == cell@[a0 + k]);
                assert(trim(name@)[k as int] == name@[b0 + k]);
                assert(norm_cp(cell@)[k as int] != norm_cp(name@)[k as int]);
            }
            return false;
        }
        k += 1;
    }
    proof {
        assert(norm_cp(cell@) =~= norm_cp(name@));
    }
    true
}

/// The strict calendar-date shape: four digits, a dash, two digits, a dash,
/// two digits, and nothing else.
pub open spec fn is_iso_date(s: Seq<char>) -> bool {
    &&& s.len() == 10
    &&& is_digit(s[0])
    &&& is_digit(s[1])
    &&& is_digit(s[2])
    &&& is_digit(s[3])
    &&& s[4] == '-'
    &&& is_digit(s[5])
    &&& is_digit(s[6])
    &&& s[7] == '-'
    &&& is_digit(s[8])
    &&& is_digit(s[9])
}

fn digit_x(c: char) -> (r: bool)
    ensures
        r == is_digit(c),
{
    let u = c as u32;
    48 <= u && u <= 57
}

/// Whether a cell has the strict calendar-date shape.
pub fn is_iso_date_str(s: &str) -> (r: bool)
    ensures
        r == is_iso_date(s@),
{
    if s.unicode_len() != 10 {
        return false;
    }
    if !digit_x(s.get_char(0)) {
        return false;
    }
    if !digit_x(s.get_char(1)) {
        return false;
    }
    if !digit_x(s.get_char(2)) {
        return false;
    }
    if !digit_x(s.get_char(3)) {
        return false;
    }
    if s.get_char(4) != '-' {
        return false;
    }
    if !digit_x(s.get_char(5)) {
        return false;
    }
    if !digit_x(s.get_char(6)) {
        return false;
    }
    if s.get_char(7) != '-' {
        return false;
    }
    if !digit_x(s.get_char(8)) {
        return false;
    }
    if !digit_x(s.get_char(9)) {
        return false;
    }
    true
}

/// The ASCII digit character for a value below ten.
pub open spec fn digit_char(d: nat) -> char {
    if d == 0 {
        '0'
    } else if d == 1 {
        '1'
    } else if d == 2 {
        '2'
    } else if d == 3 {
        '3'
    } else if d == 4 {
        '4'
    } else if d == 5 {
        '5'
    } else if d == 6 {
        '6'
    } else if d == 7 {
        '7'
    } else if d == 8 {
        '8'
    } else {
        '9'
    }
}

/// The decimal digit string of `n`, most significant digit first, without
/// leading zeros.
pub open spec fn dec_digits(n: nat) -> Seq<char>
    decreases n,
{
    if n < 10 {
        seq![digit_char(n)]
    } else {
        dec_digits(n / 10).push(digit_char(n % 10))
    }
}

fn digit_str(d: u32) -> (r: &'static str)
    requires
        d < 10,
    ensures
        r@ == seq![digit_char(d as nat)],
{
    proof {
        reveal_strlit("0");
        reveal_strlit("1");
        reveal_strlit("2");
        reveal_strlit("3");
        reveal_strlit("4");
        reveal_strlit("5");
        reveal_strlit("6");
        reveal_strlit("7");
        reveal_strlit("8");
        reveal_strlit("9");
    }
    let r: &'static str = if d == 0 {
        "0"
    } else if d == 1 {
        "1"
    } else if d == 2 {
        "2"
    } else if d == 3 {
        "3"
    } else if d == 4 {
        "4"
    } else if d == 5 {
        "5"
    } else if d == 6 {
        "6"
    } else if d == 7 {
        "7"
    } else if d == 8 {
        "8"
    } else {
        "9"
    };
    proof {
        assert(r@ =~= seq![digit_char(d as nat)]);
    }
    r
}

/// Renders `n` as its decimal digit string.
pub fn u32_to_string(n: u32) -> (r: String)
    ensures
        r@ == dec_digits(n as nat),
    decreases n,
{
    if n < 10 {
        let s = String::from_str(digit_str(n));
        s
    } else {
        let mut s = u32_to_string(n / 10);
        s.append(digit_str(n % 10));
        proof {
            assert(s@ =~= dec_digits(n as nat));
        }
        s
    }
}

} // verus!
