//! Text helpers: decimal numbers, note names, and the ASCII clean-up and XML
//! escaping applied to names written into exported archives.

use vstd::prelude::*;
use vstd::string::*;

verus! {

/// The characters of `v` as a `String` (`FromIterator<char>` for `String`).
/// Trusted: the string holds exactly the characters of `v`, in order.
#[verifier::external_body]
pub(crate) fn string_from_chars(v: &Vec<char>) -> (s: String)
    ensures
        s@ == v@,
{
    v.iter().collect()
}

pub open spec fn digit_char(d: nat) -> char {
    if d == 0 {
        '0'
    } else if d == 1 {
        '1'
    } else if d == 2 {
        '2'
    } else if d == 3 {
        '3'
    } else if d == 4 {
        '4'
    } else if d == 5 {
        '5'
    } else if d == 6 {
        '6'
    } else if d == 7 {
        '7'
    } else if d == 8 {
        '8'
    } else {
        '9'
    }
}

/// Decimal digits of `n`, most significant first, without leading zeros.
pub open spec fn decimal(n: nat) -> Seq<char>
    decreases n,
{
    if n < 10 {
        seq![digit_char(n)]
    } else {
        decimal(n / 10).push(digit_char(n % 10))
    }
}

/// Decimal form of a signed number.
pub open spec fn signed_decimal(n: int) -> Seq<char> {
    if n < 0 {
        seq!['-'] + decimal((-n) as nat)
    } else {
        decimal(n as nat)
    }
}

/// Decimal form padded with zeros to at least two digits.
pub open spec fn decimal2(n: nat) -> Seq<char> {
    if n < 10 {
        seq!['0'] + decimal(n)
    } else {
        decimal(n)
    }
}

proof fn lemma_digit_char_injective(a: nat, b: nat)
    requires
        a < 10,
        b < 10,
        digit_char(a) == digit_char(b),
    ensures
        a == b,
{
}

proof fn lemma_decimal_shape(n: nat)
    ensures
        decimal(n).len() >= 1,
        n >= 10 ==> decimal(n).len() >= 2,
        n >= 1 ==> decimal(n)[0] != '0',
    decreases n,
{
    if n >= 10 {
        lemma_decimal_shape(n / 10);
        assert(decimal(n)[0] == decimal(n / 10)[0]);
    }
}

/// Distinct numbers have distinct decimal forms.
pub proof fn decimal_injective(n: nat, m: nat)
    requires
        decimal(n) == decimal(m),
    ensures
        n == m,
    decreases n,
{
    lemma_decimal_shape(n);
    lemma_decimal_shape(m);
    if n < 10 && m < 10 {
        assert(decimal(n)[0] == decimal(m)[0]);
        lemma_digit_char_injective(n, m);
    } else if n >= 10 && m >= 10 {
        let a = decimal(n);
        let b = decimal(m);
        assert(a.last() == b.last());
        lemma_digit_char_injective(n % 10, m % 10);
        assert(a.drop_last() == decimal(n / 10));
        assert(b.drop_last() == decimal(m / 10));
        decimal_injective(n / 10, m / 10);
    }
}

/// Distinct numbers have distinct two-digit-padded decimal forms.
pub proof fn decimal2_injective(n: nat, m: nat)
    requires
        decimal2(n) == decimal2(m),
    ensures
        n == m,
{
    lemma_decimal_shape(n);
    lemma_decimal_shape(m);
    if n < 10 && m < 10 {
        assert(decimal(n) =~= decimal2(n).drop_first());
        assert(decimal(m) =~= decimal2(m).drop_first());
        decimal_injective(n, m);
    } else if n >= 10 && m >= 10 {
        decimal_injective(n, m);
    } else if n < 10 {
        assert(decimal2(n)[0] == '0');
        assert(decimal(m)[0] != '0');
    } else {
        assert(decimal2(m)[0] == '0');
        assert(decimal(n)[0] != '0');
    }
}

proof fn lemma_decimal_len_bound(n: nat, k: nat)
    requires
        k >= 1,
        n < crate::wav::pow10(k),
    ensures
        decimal(n).len() <= k,
    decreases k,
{
    if n >= 10 {
        assert(k >= 2) by {
            if k == 1 {
                assert(crate::wav::pow10(1) == 10 * crate::wav::pow10(0));
            }
        }
        assert(crate::wav::pow10(k) == 10 * crate::wav::pow10((k - 1) as nat));
        lemma_decimal_len_bound(n / 10, (k - 1) as nat);
    }
}

/// A decimal form of a machine-sized number has at most twenty digits.
pub proof fn decimal_at_most_twenty_digits(n: nat)
    requires
        n <= u64::MAX,
    ensures
        decimal(n).len() <= 20,
        decimal2(n).len() <= 20,
{
    lemma_decimal_shape(n);
    reveal_with_fuel(crate::wav::pow10, 21);
    assert(crate::wav::pow10(20) == 100000000000000000000nat);
    lemma_decimal_len_bound(n, 20);
}

fn digit(d: usize) -> (c: char)
    requires
        d < 10,
    ensures
        c == digit_char(d as nat),
{
    match d {
        0 => '0',
        1 => '1',
        2 => '2',
        3 => '3',
        4 => '4',
        5 => '5',
        6 => '6',
        7 => '7',
        8 => '8',
        _ => '9',
    }
}

/// Append the decimal digits of `n`.
pub fn push_decimal(out: &mut Vec<char>, n: usize)
    ensures
        final(out)@ == old(out)@ + decimal(n as nat),
    decreases n,
{
    if n >= 10 {
        push_decimal(out, n / 10);
    }
    out.push(digit(n % 10));
    proof {
        if n >= 10 {
            assert(final(out)@ =~= old(out)@ + decimal(n as nat));
        } else {
            assert(decimal(n as nat) == seq![digit_char(n as nat)]);
            assert(final(out)@ =~= old(out)@ + decimal(n as nat));
        }
    }
}

/// The decimal form of `n` as a string.
pub fn decimal_string(n: usize) -> (s: String)
    ensures
        s@ == decimal(n as nat),
{
    let mut v: Vec<char> = Vec::new();
    push_decimal(&mut v, n);
    assert(v@ =~= decimal(n as nat));
    string_from_chars(&v)
}

pub open spec fn pitch_class_name(pc: nat) -> Seq<char> {
    if pc == 0 {
        seq!['C']
    } else if pc == 1 {
        seq!['C', '#']
    } else if pc == 2 {
        seq!['D']
    } else if pc == 3 {
        seq!['D', '#']
    } else if pc == 4 {
        seq!['E']
    } else if pc == 5 {
        seq!['F']
    } else if pc == 6 {
        seq!['F', '#']
    } else if pc == 7 {
        seq!['G']
    } else if pc == 8 {
        seq!['G', '#']
    } else if pc == 9 {
        seq!['A']
    } else if pc == 10 {
        seq!['A', '#']
    } else {
        seq!['B']
    }
}

/// Name of a MIDI note with octave numbering where note 48 is "C3" and 60
/// is "C4" (octave = note / 12 - 1).
pub open spec fn note_name(note: u8) -> Seq<char> {
    pitch_class_name((note % 12) as nat) + signed_decimal(note / 12 - 1)
}

/// The name of a MIDI note number, e.g. "C3" for 48 or "F#4" for 66.
pub fn midi_note_name(note: u8) -> (s: String)
    ensures
        s@ == note_name(note),
{
    let mut v: Vec<char> = Vec::new();
    let pc = note % 12;
    if pc == 0 {
        v.push('C');
    } else if pc == 1 {
        v.push('C');
        v.push('#');
    } else if pc == 2 {
        v.push('D');
    } else if pc == 3 {
        v.push('D');
        v.push('#');
    } else if pc == 4 {
        v.push('E');
    } else if pc == 5 {
        v.push('F');
    } else if pc == 6 {
        v.push('F');
        v.push('#');
    } else if pc == 7 {
        v.push('G');
    } else if pc == 8 {
        v.push('G');
        v.push('#');
    } else if pc == 9 {
        v.push('A');
    } else if pc == 10 {
        v.push('A');
        v.push('#');
    } else {
        v.push('B');
    }
    let ghost name = v@;
    assert(name =~= pitch_class_name(pc as nat));
    let octave_index = note / 12;
    if octave_index < 1 {
        v.push('-');
        v.push('1');
        assert(decimal(1) == seq![digit_char(1)]);
        assert(v@ =~= note_name(note));
    } else {
        push_decimal(&mut v, (octave_index - 1) as usize);
        assert(v@ =~= note_name(note));
    }
    string_from_chars(&v)
}

/// ASCII clean-up of one character: a no-break space becomes a space,
/// printable ASCII stays, anything else becomes '_'.
pub open spec fn sanitize_char(c: char) -> char {
    if c == '\u{00A0}' {
        ' '
    } else if (c as u32) < 128 && !((c as u32) < 32 || (c as u32) == 127) {
        c
    } else {
        '_'
    }
}

pub open spec fn sanitize_seq(s: Seq<char>) -> Seq<char> {
    s.map_values(|c: char| sanitize_char(c))
}

/// Replace every character that is not printable ASCII (see `sanitize_char`).
pub fn sanitize_ascii(s: &str) -> (r: String)
    ensures
        r@ == sanitize_seq(s@),
{
    let n = s.unicode_len();
    let mut v: Vec<char> = Vec::new();
    let mut i: usize = 0;
    while i < n
        invariant
            n == s@.len(),
            0 <= i <= n,
            v@ == sanitize_seq(s@.take(i as int)),
        decreases n - i,
    {
        let c = s.get_char(i);
        let code = c as u32;
        let m = if c == '\u{00A0}' {
            ' '
        } else if code < 128 && !(code < 32 || code == 127) {
            c
        } else {
            '_'
        };
        v.push(m);
        assert(v@ =~= sanitize_seq(s@.take(i + 1)));
        i = i + 1;
    }
    assert(s@.take(n as int) == s@);
    string_from_chars(&v)
}

/// XML form of one character: the five markup characters become entity
/// references, anything else stays.
pub open spec fn escape_char(c: char) -> Seq<char> {
    if c == '&' {
        seq!['&', 'a', 'm', 'p', ';']
    } else if c == '<' {
        seq!['&', 'l', 't', ';']
    } else if c == '>' {
        seq!['&', 'g', 't', ';']
    } else if c == '"' {
        seq!['&', 'q', 'u', 'o', 't', ';']
    } else if c == '\'' {
        seq!['&', 'a', 'p', 'o', 's', ';']
    } else {
        seq![c]
    }
}

pub open spec fn escape_seq(s: Seq<char>) -> Seq<char>
    decreases s.len(),
{
    if s.len() == 0 {
        Seq::empty()
    } else {
        escape_seq(s.drop_last()) + escape_char(s.last())
    }
}

fn push_all(out: &mut Vec<char>, cs: &[char])
    ensures
        final(out)@ == old(out)@ + cs@,
{
    let mut i: usize = 0;
    while i < cs.len()
        invariant
            0 <= i <= cs.len(),
            out@ == old(out)@ + cs@.take(i as int),
        decreases cs.len() - i,
    {
        out.push(cs[i]);
        assert(out@ =~= old(out)@ + cs@.take(i + 1));
        i = i + 1;
    }
    assert(cs@.take(cs.len() as int) == cs@);
}

/// Escape the characters that are markup in XML attribute values (see
/// `escape_char`).
pub fn xml_escape(s: &str) -> (r: String)
    ensures
        r@ == escape_seq(s@),
{
    let n = s.unicode_len();
    let mut v: Vec<char> = Vec::new();
    let mut i: usize = 0;
    while i < n
        invariant
            n == s@.len(),
            0 <= i <= n,
            v@ == escape_seq(s@.take(i as int)),
        decreases n - i,
    {
        let c = s.get_char(i);
        assert(s@.take(i + 1).drop_last() == s@.take(i as int));
        if c == '&' {
            push_all(&mut v, &['&', 'a', 'm', 'p', ';']);
        } else if c == '<' {
            push_all(&mut v, &['&', 'l', 't', ';']);
        } else if c == '>' {
            push_all(&mut v, &['&', 'g', 't', ';']);
        } else if c == '"' {
            push_all(&mut v, &['&', 'q', 'u', 'o', 't', ';']);
        } else if c == '\'' {
            push_all(&mut v, &['&', 'a', 'p', 'o', 's', ';']);
        } else {
            v.push(c);
        }
        assert(v@ =~= escape_seq(s@.take(i + 1)));
        i = i + 1;
    }
    assert(s@.take(n as int) == s@);
    string_from_chars(&v)
}

/// A cleaned-up name holds only printable ASCII characters and has as many
/// characters as the name it was made from.
pub proof fn sanitized_is_printable_ascii(s: Seq<char>)
    ensures
        sanitize_seq(s).len() == s.len(),
        forall|i: int|
            0 <= i < s.len() ==> 32 <= (#[trigger] sanitize_seq(s)[i] as u32) && (sanitize_seq(s)[i] as u32) < 127,
{
    assert forall|i: int| 0 <= i < s.len() implies 32 <= (#[trigger] sanitize_seq(s)[i] as u32) && (sanitize_seq(s)[i] as u32) < 127 by {
        let c = s[i];
        assert(sanitize_seq(s)[i] == sanitize_char(c));
    }
}

/// Escaped text holds none of the characters '<', '>', '"' and '\''.
pub proof fn escaped_has_no_markup(s: Seq<char>)
    ensures
        forall|i: int|
            0 <= i < escape_seq(s).len() ==> #[trigger] escape_seq(s)[i] != '<' && escape_seq(s)[i] != '>'
                && escape_seq(s)[i] != '"' && escape_seq(s)[i] != '\'',
    decreases s.len(),
{
    if s.len() > 0 {
        escaped_has_no_markup(s.drop_last());
        let a = escape_seq(s.drop_last());
        let b = escape_char(s.last());
        assert forall|i: int| 0 <= i < escape_seq(s).len() implies #[trigger] escape_seq(s)[i] != '<'
            && escape_seq(s)[i] != '>' && escape_seq(s)[i] != '"' && escape_seq(s)[i] != '\'' by {
            if i < a.len() {
                assert(escape_seq(s)[i] == a[i]);
            } else {
                assert(escape_seq(s)[i] == b[i - a.len()]);
            }
        }
    }
}

} // verus!
