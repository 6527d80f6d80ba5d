use vstd::prelude::*;

verus! {

/// Relies on `String::push`: appends one character.
#[verifier::external_body]
pub(crate) fn push_char(s: &mut String, c: char)
    ensures
        final(s)@ == old(s)@.push(c),
{
    s.push(c)
}

/// Relies on `String::push_str`: appends a string slice.
#[verifier::external_body]
pub(crate) fn push_str(s: &mut String, t: &str)
    ensures
        final(s)@ == old(s)@ + t@,
{
    s.push_str(t)
}

/// Relies on `str::chars`: the characters of the slice, in order.
#[verifier::external_body]
pub(crate) fn chars_of(s: &str) -> (r: Vec<char>)
    ensures
        r@ == s@,
{
    s.chars().collect()
}

/// Relies on `String`'s `FromIterator<char>`: a string of these characters.
#[verifier::external_body]
pub(crate) fn string_of(cs: &[char]) -> (r: String)
    ensures
        r@ == cs@,
{
    cs.iter().collect()
}

pub open spec fn digit(d: int) -> char {
    if d == 0 {
        '0'
    } else if d == 1 {
        '1'
    } else if d == 2 {
        '2'
    } else if d == 3 {
        '3'
    } else if d == 4 {
        '4'
    } else if d == 5 {
        '5'
    } else if d == 6 {
        '6'
    } else if d == 7 {
        '7'
    } else if d == 8 {
        '8'
    } else {
        '9'
    }
}

pub open spec fn is_digit(c: char) -> bool {
    c == '0' || c == '1' || c == '2' || c == '3' || c == '4' || c == '5' || c == '6' || c == '7' || c == '8' || c == '9'
}

pub open spec fn digit_value(c: char) -> int {
    if c == '0' {
        0
    } else if c == '1' {
        1
    } else if c == '2' {
        2
    } else if c == '3' {
        3
    } else if c == '4' {
        4
    } else if c == '5' {
        5
    } else if c == '6' {
        6
    } else if c == '7' {
        7
    } else if c == '8' {
        8
    } else {
        9
    }
}

/// The decimal digits of `n`, without leading zeros.
pub open spec fn decimal(n: nat) -> Seq<char>
    decreases n,
{
    if n < 10 {
        seq![digit(n as int)]
    } else {
        decimal(n / 10).push(digit((n % 10) as int))
    }
}

pub open spec fn all_digits(s: Seq<char>) -> bool {
    forall|i: int| 0 <= i < s.len() ==> is_digit(#[trigger] s[i])
}

/// The number that a string of decimal digits spells.
pub open spec fn value(s: Seq<char>) -> nat
    decreases s.len(),
{
    if s.len() == 0 {
        0
    } else {
        value(s.drop_last()) * 10 + digit_value(s.last()) as nat
    }
}

/// A `u64` read from its decimal digits: some digits, only digits, and a
/// value that fits.
pub open spec fn parsed_u64(s: Seq<char>) -> Option<u64> {
    if s.len() > 0 && all_digits(s) && value(s) <= u64::MAX {
        Some(value(s) as u64)
    } else {
        None
    }
}

pub proof fn lemma_decimal(n: nat)
    ensures
        decimal(n).len() >= 1,
        all_digits(decimal(n)),
        value(decimal(n)) == n,
        !decimal(n).contains(','),
    decreases n,
{
    if n >= 10 {
        lemma_decimal(n / 10);
        assert(decimal(n).drop_last() =~= decimal(n / 10));
        assert(digit_value(digit((n % 10) as int)) == n % 10);
        assert(value(decimal(n)) == value(decimal(n).drop_last()) * 10 + digit_value(decimal(n).last()));
    } else {
        assert(decimal(n).drop_last() =~= Seq::<char>::empty());
        assert(value(Seq::<char>::empty()) == 0);
        assert(digit_value(digit(n as int)) == n);
        assert(value(decimal(n)) == value(decimal(n).drop_last()) * 10 + digit_value(decimal(n).last()));
    }
    assert(!decimal(n).contains(',')) by {
        if decimal(n).contains(',') {
            let i = choose|i: int| 0 <= i < decimal(n).len() && decimal(n)[i] == ',';
            assert(is_digit(decimal(n)[i]));
        }
    }
}

fn digit_char(d: u64) -> (c: char)
    requires
        d < 10,
    ensures
        c == digit(d as int),
{
    if d == 0 {
        '0'
    } else if d == 1 {
        '1'
    } else if d == 2 {
        '2'
    } else if d == 3 {
        '3'
    } else if d == 4 {
        '4'
    } else if d == 5 {
        '5'
    } else if d == 6 {
        '6'
    } else if d == 7 {
        '7'
    } else if d == 8 {
        '8'
    } else {
        '9'
    }
}

fn char_digit(c: char) -> (r: Option<u64>)
    ensures
        r is Some <==> is_digit(c),
        r is Some ==> r->0 == digit_value(c),
{
    if c == '0' {
        Some(0)
    } else if c == '1' {
        Some(1)
    } else if c == '2' {
        Some(2)
    } else if c == '3' {
        Some(3)
    } else if c == '4' {
        Some(4)
    } else if c == '5' {
        Some(5)
    } else if c == '6' {
        Some(6)
    } else if c == '7' {
        Some(7)
    } else if c == '8' {
        Some(8)
    } else if c == '9' {
        Some(9)
    } else {
        None
    }
}

/// Appends the decimal digits of `n`.
pub fn write_decimal(out: &mut String, n: u64)
    ensures
        final(out)@ == old(out)@ + decimal(n as nat),
    decreases n,
{
    if n >= 10 {
        write_decimal(out, n / 10);
    }
    push_char(out, digit_char(n % 10));
    proof {
        if n >= 10 {
            assert(old(out)@ + decimal(n as nat) =~= (old(out)@ + decimal((n / 10) as nat)).push(digit((n % 10) as int)));
        } else {
            assert(old(out)@ + decimal(n as nat) =~= old(out)@.push(digit((n % 10) as int)));
        }
    }
}

/// Reads the characters `cs[from..to]` as a decimal `u64`.
pub(crate) fn parse_digits(cs: &Vec<char>, from: usize, to: usize) -> (r: Option<u64>)
    requires
        from <= to <= cs@.len(),
    ensures
        r == parsed_u64(cs@.subrange(from as int, to as int)),
{
    let ghost s = cs@.subrange(from as int, to as int);
    if from == to {
        return None;
    }
    let mut acc: u64 = 0;
    let mut too_big = false;
    let mut i: usize = from;
    while i < to
        invariant
            from <= i <= to <= cs@.len(),
            s == cs@.subrange(from as int, to as int),
            all_digits(s.take(i - from)),
            !too_big ==> acc == value(s.take(i - from)),
            too_big ==> value(s.take(i - from)) > u64::MAX,
        decreases to - i,
    {
        let ghost k = i - from;
        assert(s.take(k + 1).drop_last() =~= s.take(k));
        match char_digit(cs[i]) {
            None => {
                assert(!is_digit(s[k]));
                return None;
            },
            Some(d) => {
                if !too_big {
                    if acc > (u64::MAX - d) / 10 {
                        too_big = true;
                    } else {
                        acc = acc * 10 + d;
                    }
                }
            },
        }
        i = i + 1;
    }
    assert(s.take(s.len() as int) =~= s);
    if too_big {
        None
    } else {
        Some(acc)
    }
}

/// Reads a decimal `u64`: `None` unless the text is a non-empty run of digits
/// whose value fits.
pub fn parse_u64(s: &str) -> (r: Option<u64>)
    ensures
        r == parsed_u64(s@),
{
    let cs = chars_of(s);
    let r = parse_digits(&cs, 0, cs.len());
    assert(cs@.subrange(0, cs@.len() as int) =~= s@);
    r
}

/// How one character is written inside a quoted CSV field: a backslash
/// doubled, a newline as backslash and `n`.
pub open spec fn escape_char(c: char) -> Seq<char> {
    if c == '\\' {
        seq!['\\', '\\']
    } else if c == '\n' {
        seq!['\\', 'n']
    } else {
        seq![c]
    }
}

pub open spec fn escaped(s: Seq<char>) -> Seq<char>
    decreases s.len(),
{
    if s.len() == 0 {
        Seq::empty()
    } else {
        escaped(s.drop_last()) + escape_char(s.last())
    }
}

/// `p` put in front of the text in `o`, if any.
pub open spec fn prepend(p: Seq<char>, o: Option<Seq<char>>) -> Option<Seq<char>> {
    match o {
        Some(r) => Some(p + r),
        None => None,
    }
}

/// The text that an escaped field stands for; `None` where a backslash is
/// followed by anything but a backslash or `n`.
pub open spec fn unescaped(t: Seq<char>) -> Option<Seq<char>>
    decreases t.len(),
{
    if t.len() == 0 {
        Some(Seq::empty())
    } else if t[0] == '\\' {
        if t.len() >= 2 && (t[1] == '\\' || t[1] == 'n') {
            prepend(seq![if t[1] == 'n' { '\n' } else { '\\' }], unescaped(t.skip(2)))
        } else {
            None
        }
    } else {
        prepend(seq![t[0]], unescaped(t.skip(1)))
    }
}

proof fn lemma_unescape_append(s: Seq<char>, t: Seq<char>)
    ensures
        unescaped(escaped(s) + t) == prepend(s, unescaped(t)),
    decreases s.len(),
{
    if s.len() == 0 {
        assert(escaped(s) + t =~= t);
        match unescaped(t) {
            Some(r) => assert(s + r =~= r),
            None => {},
        }
    } else {
        let c = s.last();
        let e = escape_char(c);
        lemma_unescape_append(s.drop_last(), e + t);
        assert(escaped(s) + t =~= escaped(s.drop_last()) + (e + t));
        if c == '\\' || c == '\n' {
            assert((e + t).skip(2) =~= t);
        } else {
            assert((e + t).skip(1) =~= t);
        }
        match unescaped(t) {
            Some(r) => {
                assert(s.drop_last() + (seq![c] + r) =~= s + r);
            },
            None => {},
        }
    }
}

/// Escaping a field and reading it back gives the field.
pub proof fn escape_round_trip(s: Seq<char>)
    ensures
        unescaped(escaped(s)) == Some(s),
{
    lemma_unescape_append(s, Seq::empty());
    assert(escaped(s) + Seq::<char>::empty() =~= escaped(s));
    assert(s + Seq::<char>::empty() =~= s);
}

/// Writes `s` escaped.
pub fn escape_field(s: &str) -> (r: String)
    ensures
        r@ == escaped(s@),
{
    let cs = chars_of(s);
    let mut out = String::new();
    let mut i: usize = 0;
    while i < cs.len()
        invariant
            i <= cs@.len(),
            cs@ == s@,
            out@ == escaped(cs@.take(i as int)),
        decreases cs@.len() - i,
    {
        let c = cs[i];
        let ghost before = out@;
        if c == '\\' {
            push_char(&mut out, '\\');
            push_char(&mut out, '\\');
        } else if c == '\n' {
            push_char(&mut out, '\\');
            push_char(&mut out, 'n');
        } else {
            push_char(&mut out, c);
        }
        assert(cs@.take(i + 1).drop_last() =~= cs@.take(i as int));
        assert(out@ =~= before + escape_char(c));
        i = i + 1;
    }
    assert(cs@.take(cs@.len() as int) =~= cs@);
    out
}

/// Reads back the characters `cs[from..to]` of an escaped field.
pub(crate) fn unescape_range(cs: &Vec<char>, from: usize, to: usize) -> (r: Option<String>)
    requires
        from <= to <= cs@.len(),
    ensures
        r is Some <==> unescaped(cs@.subrange(from as int, to as int)) is Some,
        r is Some ==> r->0@ == unescaped(cs@.subrange(from as int, to as int))->0,
{
    let ghost t = cs@.subrange(from as int, to as int);
    let mut out: Vec<char> = Vec::new();
    let mut i: usize = from;
    while i < to
        invariant
            from <= i <= to <= cs@.len(),
            t == cs@.subrange(from as int, to as int),
            unescaped(t) == prepend(out@, unescaped(cs@.subrange(i as int, to as int))),
        decreases to - i,
    {
        let ghost rest = cs@.subrange(i as int, to as int);
        let c = cs[i];
        if c == '\\' {
            if i + 1 < to && (cs[i + 1] == '\\' || cs[i + 1] == 'n') {
                let d = if cs[i + 1] == 'n' {
                    '\n'
                } else {
                    '\\'
                };
                assert(rest.skip(2) =~= cs@.subrange(i + 2, to as int));
                proof {
                    match unescaped(rest.skip(2)) {
                        Some(x) => assert(out@ + (seq![d] + x) =~= out@.push(d) + x),
                        None => {},
                    }
                }
                out.push(d);
                i = i + 2;
            } else {
                return None;
            }
        } else {
            assert(rest.skip(1) =~= cs@.subrange(i + 1, to as int));
            proof {
                match unescaped(rest.skip(1)) {
                    Some(x) => assert(out@ + (seq![c] + x) =~= out@.push(c) + x),
                    None => {},
                }
            }
            out.push(c);
            i = i + 1;
        }
    }
    assert(cs@.subrange(i as int, to as int) =~= Seq::<char>::empty());
    assert(out@ + Seq::<char>::empty() =~= out@);
    Some(string_of(out.as_slice()))
}

/// Reads back an escaped field: `None` where a backslash is followed by
/// anything but a backslash or `n`.
pub fn unescape_field(t: &str) -> (r: Option<String>)
    ensures
        r is Some <==> unescaped(t@) is Some,
        r is Some ==> r->0@ == unescaped(t@)->0,
{
    let cs = chars_of(t);
    assert(cs@.subrange(0, cs@.len() as int) =~= t@);
    unescape_range(&cs, 0, cs.len())
}

} // verus!
