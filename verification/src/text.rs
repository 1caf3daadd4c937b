//! Verified text utilities shared by the library: character search, trimming,
//! equality on string slices, decimal rendering of integers, and ASCII
//! upper-casing.

use vstd::prelude::*;

verus! {

// ---------------------------------------------------------------------------
// Equality of string slices
// ---------------------------------------------------------------------------

/// Character-wise equality of two string slices.
pub fn str_eq(a: &str, b: &str) -> (r: bool)
    ensures
        r == (a@ == b@),
{
    let na = a.unicode_len();
    let nb = b.unicode_len();
    if na != nb {
        return false;
    }
    let mut i: usize = 0;
    while i < na
        invariant
            na == a@.len(),
            na == b@.len(),
            i <= na,
            forall|j: int| 0 <= j < i ==> a@[j] == b@[j],
        decreases na - i,
    {
        let ca = a.get_char(i);
        let cb = b.get_char(i);
        if ca != cb {
            return false;
        }
        i = i + 1;
    }
    proof {
        assert(a@ =~= b@);
    }
    true
}

// ---------------------------------------------------------------------------
// Character search
// ---------------------------------------------------------------------------

/// Index of the first occurrence of `c` in `s` at or after `from`,
/// or -1 when there is none.
pub open spec fn find_from(s: Seq<char>, from: int, c: char) -> int
    decreases s.len() - from,
{
    if from < 0 || from >= s.len() {
        -1
    } else if s[from] == c {
        from
    } else {
        find_from(s, from + 1, c)
    }
}

/// First occurrence of `c` in `s` at or after `from`.
pub fn find_char(s: &str, from: usize, c: char) -> (r: Option<usize>)
    requires
        from <= s@.len(),
    ensures
        match r {
            Some(i) => i == find_from(s@, from as int, c) && from <= i < s@.len()
                && s@[i as int] == c,
            None => find_from(s@, from as int, c) == -1,
        },
{
    let n = s.unicode_len();
    let mut i: usize = from;
    while i < n
        invariant
            n == s@.len(),
            from <= i <= n,
            find_from(s@, from as int, c) == find_from(s@, i as int, c),
        decreases n - i,
    {
        if s.get_char(i) == c {
            return Some(i);
        }
        i = i + 1;
    }
    None
}

/// Index of the last occurrence of `c` in `s`, or none.
pub fn rfind_char(s: &str, c: char) -> (r: Option<usize>)
    ensures
        match r {
            Some(i) => i < s@.len() && s@[i as int] == c
                && (forall|j: int| i < j < s@.len() ==> s@[j] != c),
            None => forall|j: int| 0 <= j < s@.len() ==> s@[j] != c,
        },
{
    let n = s.unicode_len();
    let mut i: usize = n;
    while i > 0
        invariant
            n == s@.len(),
            i <= n,
            forall|j: int| i <= j < s@.len() ==> s@[j] != c,
        decreases i,
    {
        i = i - 1;
        if s.get_char(i) == c {
            return Some(i);
        }
    }
    None
}

// ---------------------------------------------------------------------------
// Whitespace trimming
// ---------------------------------------------------------------------------

/// The whitespace characters this library strips from line ends.
pub open spec fn is_space_char(c: char) -> bool {
    c == ' ' || c == '\t' || c == '\n' || c == '\r' || c == '\u{b}' || c == '\u{c}'
}

/// Executable test matching `is_space_char`.
pub fn space_char(c: char) -> (r: bool)
    ensures
        r == is_space_char(c),
{
    c == ' ' || c == '\t' || c == '\n' || c == '\r' || c == '\u{b}' || c == '\u{c}'
}

/// The characters stripped from both ends of a bracketed source field.
pub open spec fn is_bracket_char(c: char) -> bool {
    c == '[' || c == ']'
}

/// Executable test matching `is_bracket_char`.
pub fn bracket_char(c: char) -> (r: bool)
    ensures
        r == is_bracket_char(c),
{
    c == '[' || c == ']'
}

/// The predicate `trimmed` strips: whitespace.
pub open spec fn space_pred() -> spec_fn(char) -> bool {
    |c: char| is_space_char(c)
}

/// The predicate `bracket_trimmed` strips: square brackets.
pub open spec fn bracket_pred() -> spec_fn(char) -> bool {
    |c: char| is_bracket_char(c)
}

/// Index of the first character of `s` at or after `from` that does not
/// satisfy `p`, or `s.len()` when all remaining characters do.
pub open spec fn first_not(s: Seq<char>, from: int, p: spec_fn(char) -> bool) -> int
    decreases s.len() - from,
{
    if from < 0 || from >= s.len() {
        s.len() as int
    } else if !p(s[from]) {
        from
    } else {
        first_not(s, from + 1, p)
    }
}

/// One past the last character of `s` below `upto` that does not satisfy
/// `p`, or 0 when all of them do.
pub open spec fn last_not_end(s: Seq<char>, upto: int, p: spec_fn(char) -> bool) -> int
    decreases upto,
{
    if upto <= 0 || upto > s.len() {
        0
    } else if !p(s[upto - 1]) {
        upto
    } else {
        last_not_end(s, upto - 1, p)
    }
}

pub proof fn lemma_first_not(s: Seq<char>, from: int, p: spec_fn(char) -> bool)
    requires
        0 <= from <= s.len(),
    ensures
        from <= first_not(s, from, p) <= s.len(),
        first_not(s, from, p) < s.len() ==> !p(s[first_not(s, from, p)]),
        forall|j: int| from <= j < first_not(s, from, p) ==> p(s[j]),
    decreases s.len() - from,
{
    if from < s.len() && p(s[from]) {
        lemma_first_not(s, from + 1, p);
    }
}

pub proof fn lemma_last_not_end(s: Seq<char>, upto: int, p: spec_fn(char) -> bool)
    requires
        0 <= upto <= s.len(),
    ensures
        0 <= last_not_end(s, upto, p) <= upto,
        last_not_end(s, upto, p) > 0 ==> !p(s[last_not_end(s, upto, p) - 1]),
        forall|j: int| last_not_end(s, upto, p) <= j < upto ==> p(s[j]),
    decreases upto,
{
    if upto > 0 && p(s[upto - 1]) {
        lemma_last_not_end(s, upto - 1, p);
    }
}

/// `s` with characters satisfying `p` removed from both ends: the subrange
/// from the first non-matching character through the last, or empty when
/// every character matches.
pub open spec fn trim_by(s: Seq<char>, p: spec_fn(char) -> bool) -> Seq<char> {
    let lo = first_not(s, 0, p);
    let hi = last_not_end(s, s.len() as int, p);
    if lo <= hi {
        s.subrange(lo, hi)
    } else {
        Seq::empty()
    }
}

/// `s` with leading and trailing whitespace removed.
pub open spec fn trimmed(s: Seq<char>) -> Seq<char> {
    trim_by(s, space_pred())
}

/// `s` with leading and trailing square brackets removed.
pub open spec fn bracket_trimmed(s: Seq<char>) -> Seq<char> {
    trim_by(s, bracket_pred())
}

/// `s` with leading and trailing whitespace removed.
pub fn trim_str<'a>(s: &'a str) -> (r: &'a str)
    ensures
        r@ == trimmed(s@),
        r@.len() == 0 ==> forall|j: int| 0 <= j < s@.len() ==> is_space_char(s@[j]),
{
    let ghost p = space_pred();
    let n = s.unicode_len();
    let mut lo: usize = 0;
    while lo < n && space_char(s.get_char(lo))
        invariant
            p == space_pred(),
            n == s@.len(),
            lo <= n,
            first_not(s@, 0, p) == first_not(s@, lo as int, p),
        decreases n - lo,
    {
        lo = lo + 1;
    }
    proof {
        assert(first_not(s@, 0, p) == lo);
        lemma_first_not(s@, 0, p);
    }
    let mut hi: usize = n;
    while hi > lo && space_char(s.get_char(hi - 1))
        invariant
            p == space_pred(),
            n == s@.len(),
            lo <= hi <= n,
            last_not_end(s@, n as int, p) == last_not_end(s@, hi as int, p),
        decreases hi,
    {
        hi = hi - 1;
    }
    proof {
        lemma_last_not_end(s@, n as int, p);
        if !(hi > lo) {
            lemma_last_not_end(s@, hi as int, p);
        }
    }
    let r = s.substring_char(lo, hi);
    proof {
        let slo = first_not(s@, 0, p);
        let shi = last_not_end(s@, n as int, p);
        if hi > lo {
            assert(r@ == trimmed(s@));
        } else {
            assert(shi <= lo);
            assert(r@.len() == 0);
            if slo <= shi {
                assert(trimmed(s@) =~= s@.subrange(slo, shi));
                assert(trimmed(s@).len() == 0);
            }
            assert(r@ =~= trimmed(s@));
        }
        if r@.len() == 0 {
            lemma_first_not(s@, 0, p);
            lemma_last_not_end(s@, n as int, p);
        }
    }
    r
}

/// `s` with leading and trailing square brackets removed.
pub fn trim_brackets<'a>(s: &'a str) -> (r: &'a str)
    ensures
        r@ == bracket_trimmed(s@),
{
    let ghost p = bracket_pred();
    let n = s.unicode_len();
    let mut lo: usize = 0;
    while lo < n && bracket_char(s.get_char(lo))
        invariant
            p == bracket_pred(),
            n == s@.len(),
            lo <= n,
            first_not(s@, 0, p) == first_not(s@, lo as int, p),
        decreases n - lo,
    {
        lo = lo + 1;
    }
    proof {
        assert(first_not(s@, 0, p) == lo);
        lemma_first_not(s@, 0, p);
    }
    let mut hi: usize = n;
    while hi > lo && bracket_char(s.get_char(hi - 1))
        invariant
            p == bracket_pred(),
            n == s@.len(),
            lo <= hi <= n,
            last_not_end(s@, n as int, p) == last_not_end(s@, hi as int, p),
        decreases hi,
    {
        hi = hi - 1;
    }
    proof {
        lemma_last_not_end(s@, n as int, p);
        if !(hi > lo) {
            lemma_last_not_end(s@, hi as int, p);
        }
    }
    let r = s.substring_char(lo, hi);
    proof {
        let slo = first_not(s@, 0, p);
        let shi = last_not_end(s@, n as int, p);
        if hi > lo {
            assert(r@ == bracket_trimmed(s@));
        } else {
            assert(shi <= lo);
            assert(r@.len() == 0);
            if slo <= shi {
                assert(bracket_trimmed(s@) =~= s@.subrange(slo, shi));
                assert(bracket_trimmed(s@).len() == 0);
            }
            assert(r@ =~= bracket_trimmed(s@));
        }
    }
    r
}

/// Index of the last occurrence of `c` in `s`, or -1 when there is none.
pub open spec fn rfind_ch(s: Seq<char>, c: char) -> int
    decreases s.len(),
{
    if s.len() == 0 {
        -1
    } else if s[s.len() - 1] == c {
        s.len() - 1
    } else {
        rfind_ch(s.drop_last(), c)
    }
}

/// `rfind_ch` returns -1 exactly when `c` does not occur, and otherwise
/// its last occurrence.
pub proof fn lemma_rfind_ch(s: Seq<char>, c: char)
    ensures
        rfind_ch(s, c) == -1 ==> forall|j: int| 0 <= j < s.len() ==> s[j] != c,
        rfind_ch(s, c) != -1 ==> {
            let r = rfind_ch(s, c);
            &&& 0 <= r < s.len()
            &&& s[r] == c
            &&& forall|j: int| r < j < s.len() ==> s[j] != c
        },
    decreases s.len(),
{
    if s.len() > 0 && s[s.len() - 1] != c {
        lemma_rfind_ch(s.drop_last(), c);
        assert(forall|j: int| 0 <= j < s.len() - 1 ==> s.drop_last()[j] == s[j]);
    }
}

// ---------------------------------------------------------------------------
// Decimal rendering
// ---------------------------------------------------------------------------

/// The decimal digit character for `d` in 0..10.
pub open spec fn dec_digit(d: nat) -> char {
    if d == 0 {
        '0'
    } else if d == 1 {
        '1'
    } else if d == 2 {
        '2'
    } else if d == 3 {
        '3'
    } else if d == 4 {
        '4'
    } else if d == 5 {
        '5'
    } else if d == 6 {
        '6'
    } else if d == 7 {
        '7'
    } else if d == 8 {
        '8'
    } else {
        '9'
    }
}

/// The decimal rendering of a natural number, without leading zeros
/// (a single zero for 0).
pub open spec fn dec_seq(n: nat) -> Seq<char>
    decreases n,
{
    if n < 10 {
        seq![dec_digit(n)]
    } else {
        dec_seq(n / 10).push(dec_digit(n % 10))
    }
}

/// The decimal rendering of an integer: a minus sign for negatives.
pub open spec fn int_dec_seq(n: int) -> Seq<char> {
    if n >= 0 {
        dec_seq(n as nat)
    } else {
        seq!['-'] + dec_seq((-n) as nat)
    }
}

fn dec_digit_str(d: u64) -> (r: &'static str)
    requires
        d < 10,
    ensures
        r@ == seq![dec_digit(d as nat)],
{
    proof {
        reveal_strlit("0");
        reveal_strlit("1");
        reveal_strlit("2");
        reveal_strlit("3");
        reveal_strlit("4");
        reveal_strlit("5");
        reveal_strlit("6");
        reveal_strlit("7");
        reveal_strlit("8");
        reveal_strlit("9");
    }
    let r = if d == 0 {
        "0"
    } else if d == 1 {
        "1"
    } else if d == 2 {
        "2"
    } else if d == 3 {
        "3"
    } else if d == 4 {
        "4"
    } else if d == 5 {
        "5"
    } else if d == 6 {
        "6"
    } else if d == 7 {
        "7"
    } else if d == 8 {
        "8"
    } else {
        "9"
    };
    proof {
        assert(r@ =~= seq![dec_digit(d as nat)]);
    }
    r
}

/// Renders `n` in decimal.
pub fn u64_to_dec(n: u64) -> (r: String)
    ensures
        r@ == dec_seq(n as nat),
    decreases n,
{
    if n < 10 {
        dec_digit_str(n).to_owned()
    } else {
        let mut s = u64_to_dec(n / 10);
        s.append(dec_digit_str(n % 10));
        proof {
            assert(s@ =~= dec_seq((n / 10) as nat).push(dec_digit((n % 10) as nat)));
        }
        s
    }
}

/// Renders `n` in decimal, with a leading minus sign when negative.
pub fn i32_to_dec(n: i32) -> (r: String)
    ensures
        r@ == int_dec_seq(n as int),
{
    if n >= 0 {
        u64_to_dec(n as u64)
    } else {
        let wide: i64 = n as i64;
        let mag: u64 = (-wide) as u64;
        let mut s = "-".to_owned();
        s.append(u64_to_dec(mag).as_str());
        proof {
            reveal_strlit("-");
            assert(s@ =~= seq!['-'] + dec_seq((-(n as int)) as nat));
        }
        s
    }
}

// ---------------------------------------------------------------------------
// ASCII upper-casing
// ---------------------------------------------------------------------------

/// Maps an ASCII lower-case letter to its upper-case form; any other
/// character is unchanged.
pub open spec fn upper_char(c: char) -> char {
    if c == 'a' {
        'A'
    } else if c == 'b' {
        'B'
    } else if c == 'c' {
        'C'
    } else if c == 'd' {
        'D'
    } else if c == 'e' {
        'E'
    } else if c == 'f' {
        'F'
    } else if c == 'g' {
        'G'
    } else if c == 'h' {
        'H'
    } else if c == 'i' {
        'I'
    } else if c == 'j' {
        'J'
    } else if c == 'k' {
        'K'
    } else if c == 'l' {
        'L'
    } else if c == 'm' {
        'M'
    } else if c == 'n' {
        'N'
    } else if c == 'o' {
        'O'
    } else if c == 'p' {
        'P'
    } else if c == 'q' {
        'Q'
    } else if c == 'r' {
        'R'
    } else if c == 's' {
        'S'
    } else if c == 't' {
        'T'
    } else if c == 'u' {
        'U'
    } else if c == 'v' {
        'V'
    } else if c == 'w' {
        'W'
    } else if c == 'x' {
        'X'
    } else if c == 'y' {
        'Y'
    } else if c == 'z' {
        'Z'
    } else {
        c
    }
}

/// `s` with each character upper-cased by `upper_char`.
pub open spec fn upper_seq(s: Seq<char>) -> Seq<char> {
    s.map_values(|c: char| upper_char(c))
}

fn upper_char_str(c: char) -> (r: Option<&'static str>)
    ensures
        match r {
            Some(u) => u@ == seq![upper_char(c)] && upper_char(c) != c,
            None => upper_char(c) == c,
        },
{
    let r = match c {
        'a' => Some("A"),
        'b' => Some("B"),
        'c' => Some("C"),
        'd' => Some("D"),
        'e' => Some("E"),
        'f' => Some("F"),
        'g' => Some("G"),
        'h' => Some("H"),
        'i' => Some("I"),
        'j' => Some("J"),
        'k' => Some("K"),
        'l' => Some("L"),
        'm' => Some("M"),
        'n' => Some("N"),
        'o' => Some("O"),
        'p' => Some("P"),
        'q' => Some("Q"),
        'r' => Some("R"),
        's' => Some("S"),
        't' => Some("T"),
        'u' => Some("U"),
        'v' => Some("V"),
        'w' => Some("W"),
        'x' => Some("X"),
        'y' => Some("Y"),
        'z' => Some("Z"),
        _ => None,
    };
    proof {
        reveal_strlit("A");
        reveal_strlit("B");
        reveal_strlit("C");
        reveal_strlit("D");
        reveal_strlit("E");
        reveal_strlit("F");
        reveal_strlit("G");
        reveal_strlit("H");
        reveal_strlit("I");
        reveal_strlit("J");
        reveal_strlit("K");
        reveal_strlit("L");
        reveal_strlit("M");
        reveal_strlit("N");
        reveal_strlit("O");
        reveal_strlit("P");
        reveal_strlit("Q");
        reveal_strlit("R");
        reveal_strlit("S");
        reveal_strlit("T");
        reveal_strlit("U");
        reveal_strlit("V");
        reveal_strlit("W");
        reveal_strlit("X");
        reveal_strlit("Y");
        reveal_strlit("Z");
        if r is Some {
            assert(r->0@ =~= seq![upper_char(c)]);
        }
    }
    r
}

/// `s` with ASCII lower-case letters upper-cased; other characters unchanged.
pub fn ascii_upper(s: &str) -> (r: String)
    ensures
        r@ == upper_seq(s@),
{
    let n = s.unicode_len();
    let mut out = String::new();
    let mut i: usize = 0;
    while i < n
        invariant
            n == s@.len(),
            i <= n,
            out@ =~= upper_seq(s@).take(i as int),
        decreases n - i,
    {
        let c = s.get_char(i);
        match upper_char_str(c) {
            Some(u) => {
                out.append(u);
            },
            None => {
                out.append(s.substring_char(i, i + 1));
            },
        }
        proof {
            assert(out@ =~= upper_seq(s@).take(i as int + 1));
        }
        i = i + 1;
    }
    proof {
        assert(upper_seq(s@).take(n as int) =~= upper_seq(s@));
    }
    out
}

} // verus!
