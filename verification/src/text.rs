//! Characters, lines, trimming and decimal numbers, as the save format
//! reads and writes them.
use vstd::prelude::*;

verus! {

/// `c` has the Unicode `White_Space` property.
pub open spec fn is_whitespace(c: char) -> bool {
    let u = c as u32;
    ||| 0x09 <= u <= 0x0d
    ||| u == 0x20
    ||| u == 0x85
    ||| u == 0xa0
    ||| u == 0x1680
    ||| 0x2000 <= u <= 0x200a
    ||| u == 0x2028
    ||| u == 0x2029
    ||| u == 0x202f
    ||| u == 0x205f
    ||| u == 0x3000
}

/// Whether `c` has the Unicode `White_Space` property.
pub fn char_is_whitespace(c: char) -> (r: bool)
    ensures
        r == is_whitespace(c),
{
    let u = c as u32;
    (0x09 <= u && u <= 0x0d) || u == 0x20 || u == 0x85 || u == 0xa0 || u == 0x1680 || (0x2000
        <= u && u <= 0x200a) || u == 0x2028 || u == 0x2029 || u == 0x202f || u == 0x205f || u
        == 0x3000
}

/// `s` without its leading whitespace.
pub open spec fn trim_start(s: Seq<char>) -> Seq<char>
    decreases s.len(),
{
    if s.len() > 0 && is_whitespace(s[0]) {
        trim_start(s.drop_first())
    } else {
        s
    }
}

/// `s` without its trailing whitespace.
pub open spec fn trim_end(s: Seq<char>) -> Seq<char>
    decreases s.len(),
{
    if s.len() > 0 && is_whitespace(s.last()) {
        trim_end(s.drop_last())
    } else {
        s
    }
}

/// `s` without its leading and trailing whitespace.
pub open spec fn trim(s: Seq<char>) -> Seq<char> {
    trim_end(trim_start(s))
}

/// The lines of `s`: the pieces between its newline characters.
pub open spec fn split_lines(s: Seq<char>) -> Seq<Seq<char>>
    decreases s.len(),
{
    if s.len() == 0 {
        seq![Seq::<char>::empty()]
    } else {
        let p = split_lines(s.drop_last());
        if s.last() == '\n' {
            p.push(Seq::<char>::empty())
        } else {
            p.update(p.len() - 1, p.last().push(s.last()))
        }
    }
}

/// `c` is an ASCII decimal digit.
pub open spec fn is_digit(c: char) -> bool {
    '0' <= c <= '9'
}

/// The value of the ASCII digit `c`.
pub open spec fn digit_value(c: char) -> nat {
    ((c as u32) - ('0' as u32)) as nat
}

/// The ASCII digit of value `d`.
pub open spec fn digit_char(d: nat) -> char {
    (('0' as u32) + d) as char
}

/// The number that the decimal digits `d` write.
pub open spec fn digits_value(d: Seq<char>) -> nat
    decreases d.len(),
{
    if d.len() == 0 {
        0
    } else {
        digits_value(d.drop_last()) * 10 + digit_value(d.last())
    }
}

/// All characters of `d` are decimal digits.
pub open spec fn all_digits(d: Seq<char>) -> bool {
    forall|i: int| 0 <= i < d.len() ==> is_digit(#[trigger] d[i])
}

/// The `u32` that `s` writes in decimal, with an optional leading `+`, as
/// Rust's `str::parse::<u32>` reads it; `None` when `s` is no such number or
/// the number does not fit.
pub open spec fn parse_u32(s: Seq<char>) -> Option<u32> {
    let d = if s.len() > 0 && s[0] == '+' { s.drop_first() } else { s };
    if d.len() > 0 && all_digits(d) && digits_value(d) <= u32::MAX {
        Some(digits_value(d) as u32)
    } else {
        None
    }
}

/// The decimal digits of `n`, without leading zeros.
pub open spec fn decimal(n: nat) -> Seq<char>
    decreases n,
{
    if n < 10 {
        seq![digit_char(n)]
    } else {
        decimal(n / 10).push(digit_char(n % 10))
    }
}

/// The characters of `s`, in order.
pub fn chars_of(s: &str) -> (r: Vec<char>)
    ensures
        r@ == s@,
{
    let mut r: Vec<char> = Vec::new();
    for c in it: s.chars()
        invariant
            r@ == it.seq().take(it.index() as int),
            it.seq() == s@,
    {
        r.push(c);
    }
    r
}

/// Skipping whitespace characters one by one reaches the same trimmed start.
proof fn lemma_trim_start_step(s: Seq<char>, a: int, b: int)
    requires
        0 <= a < b <= s.len(),
        is_whitespace(s[a]),
    ensures
        trim_start(s.subrange(a, b)) == trim_start(s.subrange(a + 1, b)),
{
    assert(s.subrange(a, b).drop_first() =~= s.subrange(a + 1, b));
}

proof fn lemma_trim_end_step(s: Seq<char>, a: int, b: int)
    requires
        0 <= a < b <= s.len(),
        is_whitespace(s[b - 1]),
    ensures
        trim_end(s.subrange(a, b)) == trim_end(s.subrange(a, b - 1)),
{
    assert(s.subrange(a, b).drop_last() =~= s.subrange(a, b - 1));
}

/// The bounds of `s[a..b]` once trimmed: `trim(s[a..b]) == s[i..j]`.
pub fn trim_bounds(s: &Vec<char>, a: usize, b: usize) -> (r: (usize, usize))
    requires
        a <= b <= s@.len(),
    ensures
        a <= r.0 <= r.1 <= b,
        trim(s@.subrange(a as int, b as int)) == s@.subrange(r.0 as int, r.1 as int),
{
    let mut i = a;
    while i < b && char_is_whitespace(s[i])
        invariant
            a <= i <= b <= s@.len(),
            trim_start(s@.subrange(a as int, b as int)) == trim_start(s@.subrange(i as int, b as int)),
        decreases b - i,
    {
        proof {
            lemma_trim_start_step(s@, i as int, b as int);
        }
        i = i + 1;
    }
    assert(trim_start(s@.subrange(i as int, b as int)) == s@.subrange(i as int, b as int));
    let mut j = b;
    while j > i && char_is_whitespace(s[j - 1])
        invariant
            a <= i <= j <= b <= s@.len(),
            trim_end(s@.subrange(i as int, b as int)) == trim_end(s@.subrange(i as int, j as int)),
        decreases j - i,
    {
        proof {
            lemma_trim_end_step(s@, i as int, j as int);
        }
        j = j - 1;
    }
    assert(trim_end(s@.subrange(i as int, j as int)) == s@.subrange(i as int, j as int));
    (i, j)
}

/// `i` is the position of the first `=` in `s`.
pub open spec fn is_first_eq(s: Seq<char>, i: int) -> bool {
    &&& 0 <= i < s.len()
    &&& s[i] == '='
    &&& forall|j: int| 0 <= j < i ==> #[trigger] s[j] != '='
}

/// `s` split at its first `=`: the part before and the part after; `None`
/// when `s` holds no `=`.
pub open spec fn split_once_eq(s: Seq<char>) -> Option<(Seq<char>, Seq<char>)> {
    if exists|i: int| is_first_eq(s, i) {
        let i = choose|i: int| is_first_eq(s, i);
        Some((s.take(i), s.skip(i + 1)))
    } else {
        None
    }
}

/// The position of the first `=` in `s[a..b]`, counted from `a`.
pub fn find_eq(s: &Vec<char>, a: usize, b: usize) -> (r: Option<usize>)
    requires
        a <= b <= s@.len(),
    ensures
        ({
            let line = s@.subrange(a as int, b as int);
            match r {
                None => split_once_eq(line) is None,
                Some(i) => a <= i < b && split_once_eq(line) == Some(
                    (s@.subrange(a as int, i as int), s@.subrange(i + 1, b as int)),
                ),
            }
        }),
{
    let ghost line = s@.subrange(a as int, b as int);
    let mut i = a;
    while i < b
        invariant
            a <= i <= b <= s@.len(),
            line == s@.subrange(a as int, b as int),
            forall|j: int| 0 <= j < i - a ==> #[trigger] line[j] != '=',
        decreases b - i,
    {
        if s[i] == '=' {
            proof {
                let k = i - a;
                assert(line[k] == '=');
                assert(is_first_eq(line, k));
                assert forall|k2: int| is_first_eq(line, k2) implies k2 == k by {
                    if k2 < k {
                        assert(line[k2] != '=');
                    } else if k2 > k {
                        assert(line[k] != '=');
                    }
                }
                assert(line.take(k) =~= s@.subrange(a as int, i as int));
                assert(line.skip(k + 1) =~= s@.subrange(i + 1, b as int));
            }
            return Some(i);
        }
        i = i + 1;
    }
    assert(!exists|k: int| is_first_eq(line, k));
    None
}

/// The number written in `s[a..b]`, read as `parse_u32` reads it.
pub fn parse_u32_at(s: &Vec<char>, a: usize, b: usize) -> (r: Option<u32>)
    requires
        a <= b <= s@.len(),
    ensures
        r == parse_u32(s@.subrange(a as int, b as int)),
{
    let ghost t = s@.subrange(a as int, b as int);
    let mut start = a;
    if a < b && s[a] == '+' {
        start = a + 1;
    }
    let ghost d = if t.len() > 0 && t[0] == '+' { t.drop_first() } else { t };
    assert(d =~= s@.subrange(start as int, b as int));
    if start == b {
        return None;
    }
    let mut value: u64 = 0;
    let mut i = start;
    while i < b
        invariant
            start <= i <= b <= s@.len(),
            start < b,
            d == s@.subrange(start as int, b as int),
            t == s@.subrange(a as int, b as int),
            d == (if t.len() > 0 && t[0] == '+' { t.drop_first() } else { t }),
            all_digits(s@.subrange(start as int, i as int)),
            value == digits_value(s@.subrange(start as int, i as int)),
            value <= u32::MAX,
        decreases b - i,
    {
        let c = s[i];
        let ghost p = s@.subrange(start as int, i + 1);
        assert(p.drop_last() =~= s@.subrange(start as int, i as int));
        if c < '0' || c > '9' {
            assert(!is_digit(d[i - start]));
            assert(!all_digits(d));
            return None;
        }
        let digit = (c as u32 - '0' as u32) as u64;
        value = value * 10 + digit;
        if value > u32::MAX as u64 {
            proof {
                assert(d.take(i - start + 1) =~= p);
                if all_digits(d) {
                    lemma_digits_value_grows(d, i - start + 1);
                }
            }
            return None;
        }
        i = i + 1;
    }
    assert(s@.subrange(start as int, b as int) == d);
    Some(value as u32)
}

/// A longer run of digits never writes a smaller number.
proof fn lemma_digits_value_grows(d: Seq<char>, k: int)
    requires
        0 <= k <= d.len(),
        all_digits(d),
    ensures
        digits_value(d.take(k)) <= digits_value(d),
    decreases d.len() - k,
{
    if k < d.len() {
        lemma_digits_value_grows(d, k + 1);
        assert(d.take(k + 1).drop_last() =~= d.take(k));
    } else {
        assert(d.take(k) =~= d);
    }
}


/// Appends the ASCII digit of value `d`.
fn push_digit(out: &mut String, d: u32)
    requires
        d < 10,
    ensures
        final(out)@ == old(out)@.push(digit_char(d as nat)),
{
    assert(digit_char(d as nat) == (('0' as u32) + d) as char);
    match d {
        0 => {
            proof {
                reveal_strlit("0");
            }
            out.append("0");
        },
        1 => {
            proof {
                reveal_strlit("1");
            }
            out.append("1");
        },
        2 => {
            proof {
                reveal_strlit("2");
            }
            out.append("2");
        },
        3 => {
            proof {
                reveal_strlit("3");
            }
            out.append("3");
        },
        4 => {
            proof {
                reveal_strlit("4");
            }
            out.append("4");
        },
        5 => {
            proof {
                reveal_strlit("5");
            }
            out.append("5");
        },
        6 => {
            proof {
                reveal_strlit("6");
            }
            out.append("6");
        },
        7 => {
            proof {
                reveal_strlit("7");
            }
            out.append("7");
        },
        8 => {
            proof {
                reveal_strlit("8");
            }
            out.append("8");
        },
        _ => {
            proof {
                reveal_strlit("9");
            }
            out.append("9");
        },
    }
}

/// Appends the decimal digits of `n`.
pub fn push_decimal(out: &mut String, n: u32)
    ensures
        final(out)@ == old(out)@ + decimal(n as nat),
    decreases n,
{
    if n >= 10 {
        push_decimal(out, n / 10);
    }
    push_digit(out, n % 10);
    proof {
        if n >= 10 {
            assert(decimal(n as nat) == decimal((n / 10) as nat).push(digit_char((n % 10) as nat)));
        } else {
            assert(decimal(n as nat) == seq![digit_char(n as nat)]);
        }
    }
    assert(final(out)@ =~= old(out)@ + decimal(n as nat));
}

/// The decimal digits of `n` are digits, at least one, and write `n`.
pub proof fn lemma_decimal(n: nat)
    ensures
        decimal(n).len() > 0,
        all_digits(decimal(n)),
        digits_value(decimal(n)) == n,
    decreases n,
{
    if n >= 10 {
        lemma_decimal(n / 10);
        let p = decimal(n / 10);
        let d = decimal(n);
        assert(d.drop_last() =~= p);
        assert(digit_value(digit_char(n % 10)) == n % 10);
        assert(digits_value(d) == digits_value(p) * 10 + n % 10);
        assert(n == (n / 10) * 10 + n % 10);
        assert(digits_value(p) == n / 10);
        assert(digits_value(d) == n);
        assert forall|i: int| 0 <= i < d.len() implies is_digit(#[trigger] d[i]) by {
            if i < p.len() {
                assert(d[i] == p[i]);
            }
        }
    } else {
        let d = decimal(n);
        assert(d.drop_last() =~= Seq::<char>::empty());
        assert(digit_value(digit_char(n)) == n);
        assert(d.len() == 1 && d.last() == digit_char(n));
        assert(digits_value(Seq::<char>::empty()) == 0);
        assert(digits_value(d) == n);
    }
}

/// Law: reading back the decimal digits of a `u32` gives it back.
pub proof fn law_parse_decimal(n: u32)
    ensures
        parse_u32(decimal(n as nat)) == Some(n),
        trim(decimal(n as nat)) == decimal(n as nat),
        forall|i: int| 0 <= i < decimal(n as nat).len() ==> #[trigger] decimal(n as nat)[i] != '='
            && decimal(n as nat)[i] != '\n',
{
    lemma_decimal(n as nat);
    let d = decimal(n as nat);
    assert(is_digit(d[0]));
    lemma_trim_no_whitespace(d);
}

/// Text without whitespace at its ends is its own trimming.
pub proof fn lemma_trim_no_whitespace(s: Seq<char>)
    requires
        s.len() > 0 ==> !is_whitespace(s[0]) && !is_whitespace(s.last()),
    ensures
        trim(s) == s,
{
}


/// `s` holds no newline character.
pub open spec fn no_newline(s: Seq<char>) -> bool {
    forall|i: int| 0 <= i < s.len() ==> #[trigger] s[i] != '\n'
}

/// A text without newline is a single line.
pub proof fn lemma_split_lines_single(l: Seq<char>)
    requires
        no_newline(l),
    ensures
        split_lines(l) == seq![l],
    decreases l.len(),
{
    if l.len() > 0 {
        let p = l.drop_last();
        assert(no_newline(p)) by {
            assert forall|i: int| 0 <= i < p.len() implies #[trigger] p[i] != '\n' by {
                assert(p[i] == l[i]);
            }
        }
        lemma_split_lines_single(p);
        assert(l.last() == l[l.len() - 1]);
        assert(p.push(l.last()) =~= l);
        assert(seq![p].update(0, p.push(l.last())) =~= seq![l]);
    } else {
        assert(l =~= Seq::<char>::empty());
    }
}

/// The lines of two texts joined by a newline are the lines of the first
/// followed by the lines of the second.
pub proof fn lemma_split_lines_join(x: Seq<char>, y: Seq<char>)
    ensures
        split_lines(x + seq!['\n'] + y) == split_lines(x) + split_lines(y),
    decreases y.len(),
{
    let xn = x + seq!['\n'];
    if y.len() == 0 {
        assert(xn + y =~= xn);
        assert(xn.drop_last() =~= x);
        assert(split_lines(x).push(Seq::<char>::empty()) =~= split_lines(x) + seq![Seq::<char>::empty()]);
    } else {
        let yp = y.drop_last();
        lemma_split_lines_join(x, yp);
        lemma_split_lines_nonempty(yp);
        let whole = xn + y;
        assert(whole.drop_last() =~= xn + yp);
        assert(whole.last() == y.last());
        let a = split_lines(x);
        let b = split_lines(yp);
        if y.last() == '\n' {
            assert((a + b).push(Seq::<char>::empty()) =~= a + b.push(Seq::<char>::empty()));
        } else {
            assert((a + b).update((a + b).len() - 1, (a + b).last().push(y.last())) =~= a + b.update(
                b.len() - 1,
                b.last().push(y.last()),
            ));
        }
    }
}

/// Every text has at least one line.
pub proof fn lemma_split_lines_nonempty(s: Seq<char>)
    ensures
        split_lines(s).len() >= 1,
    decreases s.len(),
{
    if s.len() > 0 {
        lemma_split_lines_nonempty(s.drop_last());
    }
}


/// `d` padded on the left with zeros to at least `width` characters.
pub open spec fn zero_padded(d: Seq<char>, width: nat) -> Seq<char> {
    Seq::new(if d.len() < width { (width - d.len()) as nat } else { 0 }, |i: int| '0') + d
}

/// The decimal digits of `n`, as a string.
pub fn decimal_string(n: u32) -> (r: String)
    ensures
        r@ == decimal(n as nat),
{
    let mut s = String::new();
    push_decimal(&mut s, n);
    assert(s@ =~= decimal(n as nat));
    s
}

/// Appends the decimal digits of `n`, padded on the left with zeros to at
/// least `width` characters.
pub fn push_zero_padded(out: &mut String, n: u32, width: usize)
    ensures
        final(out)@ == old(out)@ + zero_padded(decimal(n as nat), width as nat),
{
    let d = decimal_string(n);
    let len = d.as_str().unicode_len();
    let ghost start = out@;
    let mut k = len;
    proof {
        reveal_strlit("0");
    }
    while k < width
        invariant
            len == decimal(n as nat).len(),
            len <= k <= width || (len > width && k == len),
            out@ == start + Seq::new((k - len) as nat, |i: int| '0'),
        decreases width - k,
    {
        out.append("0");
        proof {
            reveal_strlit("0");
        }
        assert(out@ =~= start + Seq::new((k + 1 - len) as nat, |i: int| '0'));
        k = k + 1;
    }
    out.append(d.as_str());
    assert(out@ =~= start + zero_padded(decimal(n as nat), width as nat));
}


/// `d` padded on the left with spaces to at least `width` characters.
pub open spec fn space_padded(d: Seq<char>, width: nat) -> Seq<char> {
    Seq::new(if d.len() < width { (width - d.len()) as nat } else { 0 }, |i: int| ' ') + d
}

/// Appends the decimal digits of `n`, padded on the left with spaces to at
/// least `width` characters.
pub fn push_space_padded(out: &mut String, n: u32, width: usize)
    ensures
        final(out)@ == old(out)@ + space_padded(decimal(n as nat), width as nat),
{
    let d = decimal_string(n);
    let len = d.as_str().unicode_len();
    let ghost start = out@;
    let mut k = len;
    while k < width
        invariant
            len == decimal(n as nat).len(),
            len <= k <= width || (len > width && k == len),
            out@ == start + Seq::new((k - len) as nat, |i: int| ' '),
        decreases width - k,
    {
        out.append(" ");
        proof {
            reveal_strlit(" ");
        }
        assert(out@ =~= start + Seq::new((k + 1 - len) as nat, |i: int| ' '));
        k = k + 1;
    }
    out.append(d.as_str());
    assert(out@ =~= start + space_padded(decimal(n as nat), width as nat));
}


/// Law: a line splits at its first `=`: the key holds no `=`, and the key,
/// an `=` and the value make up the line; a line without `=` does not split.
pub proof fn law_split_at_first_eq(s: Seq<char>)
    ensures
        match split_once_eq(s) {
            Some(kv) => {
                &&& forall|j: int| 0 <= j < kv.0.len() ==> #[trigger] kv.0[j] != '='
                &&& s == kv.0 + seq!['='] + kv.1
            },
            None => forall|j: int| 0 <= j < s.len() ==> #[trigger] s[j] != '=',
        },
{
    if exists|i: int| is_first_eq(s, i) {
        let i = choose|i: int| is_first_eq(s, i);
        let k = s.take(i);
        assert forall|j: int| 0 <= j < k.len() implies #[trigger] k[j] != '=' by {
            assert(k[j] == s[j]);
        }
        assert(s =~= s.take(i) + seq!['='] + s.skip(i + 1));
    } else {
        assert forall|j: int| 0 <= j < s.len() implies #[trigger] s[j] != '=' by {
            if s[j] == '=' {
                lemma_first_eq_exists(s, j);
            }
        }
    }
}

proof fn lemma_first_eq_exists(s: Seq<char>, d: int)
    requires
        0 <= d < s.len(),
        s[d] == '=',
    ensures
        exists|i: int| is_first_eq(s, i),
    decreases d,
{
    if forall|j: int| 0 <= j < d ==> #[trigger] s[j] != '=' {
        assert(is_first_eq(s, d));
    } else {
        let j = choose|j: int| 0 <= j < d && #[trigger] s[j] == '=';
        lemma_first_eq_exists(s, j);
    }
}

} // verus!
