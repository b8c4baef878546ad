//! Character and string helpers shared by the stock engine, the order files
//! and the wire codec: ASCII upper-casing, string equality, and decimal
//! rendering and parsing, each tied to a spec-level definition.

use vstd::prelude::*;

verus! {

/// Relies on String::push: appends exactly the given character at the end.
#[verifier::external_body]
pub fn push_char(s: &mut String, c: char)
    ensures
        final(s)@ == old(s)@.push(c),
{
    s.push(c);
}

/// The upper-case form of one character: ASCII letters fold, everything else
/// stays.
pub open spec fn upper_char(c: char) -> char {
    if 97 <= c as u32 && c as u32 <= 122 {
        ((c as u32) - 32) as char
    } else {
        c
    }
}

/// The upper-case form of a character sequence.
pub open spec fn upper_seq(s: Seq<char>) -> Seq<char> {
    s.map_values(|c: char| upper_char(c))
}

/// Upper-cases one ASCII letter; other characters pass through unchanged.
pub fn upper_char_exec(c: char) -> (r: char)
    ensures
        r == upper_char(c),
{
    match c {
        'a' => 'A',
        'b' => 'B',
        'c' => 'C',
        'd' => 'D',
        'e' => 'E',
        'f' => 'F',
        'g' => 'G',
        'h' => 'H',
        'i' => 'I',
        'j' => 'J',
        'k' => 'K',
        'l' => 'L',
        'm' => 'M',
        'n' => 'N',
        'o' => 'O',
        'p' => 'P',
        'q' => 'Q',
        'r' => 'R',
        's' => 'S',
        't' => 'T',
        'u' => 'U',
        'v' => 'V',
        'w' => 'W',
        'x' => 'X',
        'y' => 'Y',
        'z' => 'Z',
        _ => c,
    }
}

/// Upper-cases a whole string, character by character.
pub fn to_upper(s: &str) -> (r: String)
    ensures
        r@ == upper_seq(s@),
{
    let n = s.unicode_len();
    let mut out = String::new();
    let mut i: usize = 0;
    while i < n
        invariant
            i <= n,
            n == s@.len(),
            out@ == upper_seq(s@).subrange(0, i as int),
        decreases n - i,
    {
        let c = s.get_char(i);
        let u = upper_char_exec(c);
        push_char(&mut out, u);
        proof {
            assert(upper_seq(s@).subrange(0, i + 1) == upper_seq(s@).subrange(0, i as int).push(
                upper_char(s@[i as int]),
            ));
        }
        i = i + 1;
    }
    proof {
        assert(upper_seq(s@).subrange(0, n as int) == upper_seq(s@));
    }
    out
}

/// Character-by-character string equality.
pub fn str_eq(a: &str, b: &str) -> (r: bool)
    ensures
        r == (a@ == b@),
{
    let na = a.unicode_len();
    let nb = b.unicode_len();
    if na != nb {
        proof {
            assert(a@ != b@);
        }
        return false;
    }
    let mut i: usize = 0;
    while i < na
        invariant
            i <= na,
            na == a@.len(),
            na == b@.len(),
            forall|j: int| 0 <= j < i ==> a@[j] == b@[j],
        decreases na - i,
    {
        if a.get_char(i) != b.get_char(i) {
            return false;
        }
        i = i + 1;
    }
    proof {
        assert(a@ =~= b@);
    }
    true
}

/// Whether a character is a decimal digit.
pub open spec fn is_digit(c: char) -> bool {
    48 <= c as u32 <= 57
}

/// The digit character for a value below ten.
pub open spec fn digit_char(d: nat) -> char
    recommends
        d < 10,
{
    (48 + d) as char
}

/// The decimal rendering of a number, most significant digit first.
pub open spec fn dec_seq(n: nat) -> Seq<char>
    decreases n,
{
    if n < 10 {
        seq![digit_char(n)]
    } else {
        dec_seq(n / 10).push(digit_char(n % 10))
    }
}

/// The value of a digit sequence read as a decimal numeral.
pub open spec fn num_val(s: Seq<char>) -> nat
    decreases s.len(),
{
    if s.len() == 0 {
        0
    } else {
        num_val(s.drop_last()) * 10 + (if is_digit(s.last()) {
            (s.last() as u32 - 48) as nat
        } else {
            0
        })
    }
}

/// Whether every character of a sequence is a decimal digit.
pub open spec fn all_digits(s: Seq<char>) -> bool {
    forall|i: int| 0 <= i < s.len() ==> is_digit(s[i])
}

/// Every character of a decimal rendering is a digit.
pub proof fn lemma_dec_seq_digits(n: nat)
    ensures
        all_digits(dec_seq(n)),
        dec_seq(n).len() >= 1,
        is_digit(dec_seq(n)[0]),
    decreases n,
{
    if n < 10 {
    } else {
        lemma_dec_seq_digits(n / 10);
        assert forall|i: int| 0 <= i < dec_seq(n).len() implies is_digit(dec_seq(n)[i]) by {
            if i < dec_seq(n / 10).len() {
                assert(dec_seq(n)[i] == dec_seq(n / 10)[i]);
            }
        }
    }
}

/// Reading a decimal rendering back gives the number it renders.
pub proof fn lemma_num_val_dec_seq(n: nat)
    ensures
        num_val(dec_seq(n)) == n,
    decreases n,
{
    if n < 10 {
        assert((48 + n) as char as u32 == 48 + n);
        assert(dec_seq(n) == seq![digit_char(n)]);
        assert(dec_seq(n).drop_last() =~= Seq::<char>::empty());
        assert(num_val(dec_seq(n).drop_last()) == 0);
        assert(dec_seq(n).last() == digit_char(n));
        assert(is_digit(dec_seq(n).last()));
        assert(num_val(dec_seq(n)) == 0 * 10 + (digit_char(n) as u32 - 48) as nat);
    } else {
        lemma_num_val_dec_seq(n / 10);
        assert((48 + n % 10) as char as u32 == 48 + n % 10);
        assert(dec_seq(n) == dec_seq(n / 10).push(digit_char(n % 10)));
        assert(dec_seq(n).drop_last() =~= dec_seq(n / 10));
        assert(dec_seq(n).last() == digit_char(n % 10));
        assert(is_digit(dec_seq(n).last()));
        assert(num_val(dec_seq(n)) == num_val(dec_seq(n / 10)) * 10 + (digit_char(n % 10) as u32
            - 48) as nat);
        assert(n / 10 * 10 + n % 10 == n);
    }
}

/// The digit character for one value below ten.
pub fn digit_char_exec(d: u64) -> (r: char)
    requires
        d < 10,
    ensures
        r == digit_char(d as nat),
{
    match d {
        0 => '0',
        1 => '1',
        2 => '2',
        3 => '3',
        4 => '4',
        5 => '5',
        6 => '6',
        7 => '7',
        8 => '8',
        _ => '9',
    }
}

/// Renders a number in decimal.
pub fn u64_to_string(n: u64) -> (r: String)
    ensures
        r@ == dec_seq(n as nat),
    decreases n,
{
    if n < 10 {
        let mut s = String::new();
        push_char(&mut s, digit_char_exec(n));
        proof {
            assert(s@ =~= dec_seq(n as nat));
        }
        s
    } else {
        let mut s = u64_to_string(n / 10);
        push_char(&mut s, digit_char_exec(n % 10));
        s
    }
}

/// The digit value of a digit character.
pub fn digit_val_exec(c: char) -> (r: u32)
    requires
        is_digit(c),
    ensures
        r == c as u32 - 48,
        r < 10,
{
    match c {
        '0' => 0,
        '1' => 1,
        '2' => 2,
        '3' => 3,
        '4' => 4,
        '5' => 5,
        '6' => 6,
        '7' => 7,
        '8' => 8,
        _ => 9,
    }
}

/// Whether a character is a decimal digit.
pub fn is_digit_exec(c: char) -> (r: bool)
    ensures
        r == is_digit(c),
{
    match c {
        '0' | '1' | '2' | '3' | '4' | '5' | '6' | '7' | '8' | '9' => true,
        _ => false,
    }
}

/// Parses a whole string as a decimal `u32`: accepted exactly when the string
/// is non-empty, all digits, and its value fits.
pub fn parse_u32(s: &str) -> (r: Option<u32>)
    ensures
        match r {
            Some(v) => s@.len() > 0 && all_digits(s@) && num_val(s@) == v as nat,
            None => s@.len() == 0 || !all_digits(s@) || num_val(s@) > u32::MAX as nat,
        },
{
    let n = s.unicode_len();
    if n == 0 {
        return None;
    }
    let mut acc: u64 = 0;
    let mut i: usize = 0;
    while i < n
        invariant
            i <= n,
            n == s@.len(),
            all_digits(s@.subrange(0, i as int)),
            acc as nat == num_val(s@.subrange(0, i as int)),
            acc <= u32::MAX,
        decreases n - i,
    {
        let c = s.get_char(i);
        if !is_digit_exec(c) {
            proof {
                assert(!all_digits(s@));
            }
            return None;
        }
        let d = digit_val_exec(c);
        let next: u64 = acc * 10 + (d as u64);
        proof {
            assert(s@.subrange(0, i + 1).drop_last() =~= s@.subrange(0, i as int));
            assert(num_val(s@.subrange(0, i + 1)) == acc as nat * 10 + d as nat);
        }
        if next > u32::MAX as u64 {
            proof {
                lemma_num_val_prefix_monotone(s@, i + 1);
            }
            return None;
        }
        acc = next;
        i = i + 1;
    }
    proof {
        assert(s@.subrange(0, n as int) =~= s@);
    }
    Some(acc as u32)
}

/// The view of a list of strings: the sequence of their character sequences.
pub open spec fn strings_view(v: Seq<String>) -> Seq<Seq<char>> {
    v.map_values(|s: String| s@)
}

/// Splitting a sequence at separator characters, the tail-recursive way: the
/// field read so far and the finished fields ride along.
pub open spec fn split_rec(s: Seq<char>, seps: Set<char>, cur: Seq<char>, acc: Seq<Seq<char>>) -> Seq<
    Seq<char>,
>
    decreases s.len(),
{
    if s.len() == 0 {
        acc.push(cur)
    } else if seps.contains(s[0]) {
        split_rec(s.drop_first(), seps, Seq::empty(), acc.push(cur))
    } else {
        split_rec(s.drop_first(), seps, cur.push(s[0]), acc)
    }
}

/// The fields of a sequence, split at the separator characters.  A sequence
/// with no separator has exactly one field; every separator starts a new one.
pub open spec fn split_spec(s: Seq<char>, seps: Set<char>) -> Seq<Seq<char>> {
    split_rec(s, seps, Seq::empty(), Seq::empty())
}

/// Splits a string at any of the order-file separators: comma, colon or
/// semicolon.
pub fn split_order_seps(s: &str) -> (r: Vec<String>)
    ensures
        strings_view(r@) == split_spec(s@, set![',', ':', ';']),
{
    split_exec(s, true)
}

/// Splits a string at commas.
pub fn split_commas(s: &str) -> (r: Vec<String>)
    ensures
        strings_view(r@) == split_spec(s@, set![',']),
{
    split_exec(s, false)
}

/// The separator set the two splitters use.
spec fn sep_set(extended: bool) -> Set<char> {
    if extended {
        set![',', ':', ';']
    } else {
        set![',']
    }
}

/// Splits at commas, and when asked also at colons and semicolons.
fn split_exec(s: &str, extended: bool) -> (r: Vec<String>)
    ensures
        strings_view(r@) == split_spec(s@, sep_set(extended)),
{
    let n = s.unicode_len();
    let mut acc: Vec<String> = Vec::new();
    let mut cur = String::new();
    let mut i: usize = 0;
    proof {
        assert(s@.skip(0) =~= s@);
        assert(strings_view(acc@) =~= Seq::<Seq<char>>::empty());
    }
    while i < n
        invariant
            i <= n,
            n == s@.len(),
            split_rec(s@.skip(i as int), sep_set(extended), cur@, strings_view(acc@))
                == split_spec(s@, sep_set(extended)),
        decreases n - i,
    {
        let c = s.get_char(i);
        let is_sep = if extended {
            c == ',' || c == ':' || c == ';'
        } else {
            c == ','
        };
        proof {
            assert(s@.skip(i as int).drop_first() =~= s@.skip(i + 1));
            assert(is_sep == sep_set(extended).contains(s@[i as int]));
        }
        if is_sep {
            let ghost acc0 = strings_view(acc@);
            let ghost cur0 = cur@;
            acc.push(cur);
            cur = String::new();
            proof {
                assert(strings_view(acc@) =~= acc0.push(cur0));
            }
        } else {
            push_char(&mut cur, c);
        }
        i = i + 1;
    }
    proof {
        assert(s@.skip(n as int) =~= Seq::<char>::empty());
    }
    acc.push(cur);
    acc
}

/// Whether a character counts as blank when order fields are trimmed.
pub open spec fn is_blank(c: char) -> bool {
    c == ' ' || c == '\t' || c == '\r' || c == '\n'
}

/// A sequence with its leading blanks removed.
pub open spec fn trim_front(s: Seq<char>) -> Seq<char>
    decreases s.len(),
{
    if s.len() > 0 && is_blank(s[0]) {
        trim_front(s.drop_first())
    } else {
        s
    }
}

/// A sequence with its trailing blanks removed.
pub open spec fn trim_back(s: Seq<char>) -> Seq<char>
    decreases s.len(),
{
    if s.len() > 0 && is_blank(s.last()) {
        trim_back(s.drop_last())
    } else {
        s
    }
}

/// A sequence with blanks removed at both ends.
pub open spec fn trim_spec(s: Seq<char>) -> Seq<char> {
    trim_back(trim_front(s))
}

/// Whether a character counts as blank.
fn is_blank_exec(c: char) -> (r: bool)
    ensures
        r == is_blank(c),
{
    c == ' ' || c == '\t' || c == '\r' || c == '\n'
}

/// Removes blanks at both ends of a string.
pub fn trim_exec(s: &str) -> (r: String)
    ensures
        r@ == trim_spec(s@),
{
    let n = s.unicode_len();
    let mut a: usize = 0;
    proof {
        assert(s@.skip(0) =~= s@);
    }
    while a < n && is_blank_exec(s.get_char(a))
        invariant
            a <= n,
            n == s@.len(),
            trim_front(s@.skip(a as int)) == trim_front(s@),
        decreases n - a,
    {
        proof {
            assert(s@.skip(a as int).drop_first() =~= s@.skip(a + 1));
        }
        a = a + 1;
    }
    proof {
        if a < n {
            assert(trim_front(s@.skip(a as int)) == s@.skip(a as int));
        } else {
            assert(s@.skip(a as int) =~= Seq::<char>::empty());
        }
    }
    proof {
        assert(s@.skip(a as int).take((n - a) as int) =~= s@.skip(a as int));
    }
    let mut b: usize = n;
    while b > a && is_blank_exec(s.get_char(b - 1))
        invariant
            a <= b <= n,
            n == s@.len(),
            trim_front(s@) == s@.skip(a as int),
            trim_back(s@.skip(a as int).take(b - a)) == trim_back(s@.skip(a as int)),
        decreases b,
    {
        proof {
            let t = s@.skip(a as int).take(b - a);
            assert(t.last() == s@[b - 1]);
            assert(t.drop_last() =~= s@.skip(a as int).take(b - a - 1));
        }
        b = b - 1;
    }
    proof {
        let t = s@.skip(a as int).take(b - a);
        if b > a {
            assert(t.last() == s@[b - 1]);
            assert(trim_back(t) == t);
        } else {
            assert(t =~= Seq::<char>::empty());
        }
        assert(s@.skip(a as int).take(b - a) =~= s@.subrange(a as int, b as int));
    }
    let piece = s.substring_char(a, b);
    piece.to_owned()
}

/// A numeral is at least the value of any of its prefixes.
pub proof fn lemma_num_val_prefix_monotone(s: Seq<char>, k: int)
    requires
        0 <= k <= s.len(),
    ensures
        num_val(s) >= num_val(s.subrange(0, k)),
    decreases s.len() - k,
{
    if k < s.len() {
        lemma_num_val_prefix_monotone(s, k + 1);
        assert(s.subrange(0, k + 1).drop_last() =~= s.subrange(0, k));
        assert(num_val(s.subrange(0, k + 1)) >= num_val(s.subrange(0, k)));
        assert(s.subrange(0, s.len() as int) =~= s);
    } else {
        assert(s.subrange(0, s.len() as int) =~= s);
    }
}

} // verus!
