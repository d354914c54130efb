//! Text as sequences of characters: comparison, searching, decimal numbers
//! and the few std string operations that the rest of the library builds on.
use vstd::prelude::*;
use vstd::slice::slice_subrange;
use vstd::utf8::*;

verus! {

/// `String::push` of std appends one character and changes nothing else.
pub assume_specification[ String::push ](s: &mut String, c: char)
    ensures
        final(s)@ == old(s)@.push(c),
;

/// Whether two byte slices hold the same bytes.
pub fn bytes_eq(a: &[u8], b: &[u8]) -> (r: bool)
    ensures
        r == (a@ == b@),
{
    if a.len() != b.len() {
        return false;
    }
    let mut i: usize = 0;
    while i < a.len()
        invariant
            i <= a@.len(),
            a@.len() == b@.len(),
            forall|j: int| 0 <= j < i ==> a@[j] == b@[j],
        decreases a.len() - i,
    {
        if a[i] != b[i] {
            return false;
        }
        i += 1;
    }
    assert(a@ =~= b@);
    true
}

/// Whether two texts hold the same characters.
pub fn text_eq(a: &str, b: &str) -> (r: bool)
    ensures
        r == (a@ == b@),
{
    let r = bytes_eq(a.as_bytes(), b.as_bytes());
    proof {
        encode_utf8_decode_utf8(a@);
        encode_utf8_decode_utf8(b@);
    }
    r
}

/// The characters of a text, in order.
pub fn chars_of(s: &str) -> (r: Vec<char>)
    ensures
        r@ == s@,
{
    let mut out: Vec<char> = Vec::new();
    for c in it: s.chars()
        invariant
            out@ == it.seq().take(it.index() as int),
            it.seq() == s@,
    {
        out.push(c);
    }
    out
}

/// The text made of the given characters.
pub fn text_of(chars: &[char]) -> (r: String)
    ensures
        r@ == chars@,
{
    let mut out = String::new();
    let mut i: usize = 0;
    while i < chars.len()
        invariant
            i <= chars@.len(),
            out@ == chars@.take(i as int),
        decreases chars.len() - i,
    {
        out.push(chars[i]);
        i += 1;
        assert(chars@.take(i as int) =~= chars@.take(i - 1).push(chars@[i - 1]));
    }
    assert(chars@.take(i as int) =~= chars@);
    out
}

/// An optional text as an optional sequence of characters.
pub open spec fn opt_text(o: Option<String>) -> Option<Seq<char>> {
    match o {
        Some(s) => Some(s@),
        None => None,
    }
}

/// An optional borrowed text as an optional sequence of characters.
pub open spec fn opt_str(o: Option<&str>) -> Option<Seq<char>> {
    match o {
        Some(s) => Some(s@),
        None => None,
    }
}

/// A list of texts as a sequence of sequences of characters.
pub open spec fn texts(v: Seq<String>) -> Seq<Seq<char>> {
    v.map_values(|s: String| s@)
}

/// Whether `part` occurs in `whole` at position `at`.
pub open spec fn occurs_at(whole: Seq<char>, part: Seq<char>, at: int) -> bool {
    0 <= at && at + part.len() <= whole.len() && whole.subrange(at, at + part.len()) == part
}

/// Whether `part` occurs somewhere in `whole`.
pub open spec fn contains_text(whole: Seq<char>, part: Seq<char>) -> bool {
    exists|at: int| occurs_at(whole, part, at)
}

/// Whether `part` occurs in `whole` at position `at`.
pub fn occurs_here(whole: &[char], part: &[char], at: usize) -> (r: bool)
    ensures
        r == occurs_at(whole@, part@, at as int),
{
    if at > whole.len() || part.len() > whole.len() - at {
        return false;
    }
    let size: usize = whole.len();
    let mut i: usize = 0;
    while i < part.len()
        invariant
            i <= part@.len(),
            at + part@.len() <= whole@.len() == size,
            forall|j: int| 0 <= j < i ==> whole@[at + j] == part@[j],
        decreases part.len() - i,
    {
        if whole[at + i] != part[i] {
            assert(whole@.subrange(at as int, at + part@.len())[i as int] == whole@[at + i]);
            return false;
        }
        i += 1;
    }
    assert(whole@.subrange(at as int, at + part@.len()) =~= part@);
    true
}

/// Position of the first occurrence of `part` at or after `from`.
pub fn find_from(whole: &[char], part: &[char], from: usize) -> (r: Option<usize>)
    ensures
        match r {
            Some(at) => {
                &&& from <= at
                &&& occurs_at(whole@, part@, at as int)
                &&& forall|j: int| from <= j < at ==> !occurs_at(whole@, part@, j)
            },
            None => forall|j: int| from <= j ==> !occurs_at(whole@, part@, j),
        },
{
    let mut at: usize = from;
    while at <= whole.len()
        invariant
            from <= at,
            forall|j: int| from <= j < at ==> !occurs_at(whole@, part@, j),
            from <= whole@.len() ==> at <= whole@.len() + 1,
            from > whole@.len() ==> at == from,
        decreases whole.len() + 1 - at,
    {
        if occurs_here(whole, part, at) {
            return Some(at);
        }
        if at == whole.len() {
            return None;
        }
        at += 1;
    }
    None
}

/// Whether `part` occurs somewhere in `whole`.
pub fn text_contains(whole: &str, part: &str) -> (r: bool)
    ensures
        r == contains_text(whole@, part@),
{
    let w = chars_of(whole);
    let p = chars_of(part);
    match find_from(w.as_slice(), p.as_slice(), 0) {
        Some(at) => {
            assert(occurs_at(whole@, part@, at as int));
            true
        },
        None => {
            assert(forall|j: int| 0 <= j ==> !occurs_at(whole@, part@, j));
            false
        },
    }
}

/// Whether `part` begins `whole`.
pub open spec fn begins(whole: Seq<char>, part: Seq<char>) -> bool {
    occurs_at(whole, part, 0)
}

/// Whether `part` ends `whole`.
pub open spec fn finishes(whole: Seq<char>, part: Seq<char>) -> bool {
    occurs_at(whole, part, whole.len() - part.len())
}

/// Whether `whole` begins with `part`.
pub fn text_begins(whole: &str, part: &str) -> (r: bool)
    ensures
        r == begins(whole@, part@),
{
    let w = chars_of(whole);
    let p = chars_of(part);
    occurs_here(w.as_slice(), p.as_slice(), 0)
}

/// Whether `whole` ends with `part`.
pub fn text_finishes(whole: &str, part: &str) -> (r: bool)
    ensures
        r == finishes(whole@, part@),
{
    let w = chars_of(whole);
    let p = chars_of(part);
    if p.len() > w.len() {
        return false;
    }
    occurs_here(w.as_slice(), p.as_slice(), w.len() - p.len())
}

/// The lower-case form of an ASCII capital; any other character unchanged.
pub open spec fn lower(c: char) -> char {
    if 'A' <= c && c <= 'Z' {
        ((c as u8 + 32) as u8) as char
    } else {
        c
    }
}

/// The lower-case form of an ASCII capital; any other character unchanged.
pub fn lower_char(c: char) -> (r: char)
    ensures
        r == lower(c),
{
    if 'A' <= c && c <= 'Z' {
        ((c as u8) + 32) as char
    } else {
        c
    }
}

/// A text with its ASCII capitals turned to lower case.
pub fn ascii_lower(s: &str) -> (r: String)
    ensures
        r@ == s@.map_values(|c: char| lower(c)),
{
    let w = chars_of(s);
    let mut out: Vec<char> = Vec::new();
    let mut i: usize = 0;
    while i < w.len()
        invariant
            i <= w@.len(),
            w@ == s@,
            out@ == s@.take(i as int).map_values(|c: char| lower(c)),
        decreases w.len() - i,
    {
        out.push(lower_char(w[i]));
        i += 1;
        assert(s@.take(i as int).map_values(|c: char| lower(c)) =~= s@.take(i - 1).map_values(
            |c: char| lower(c),
        ).push(lower(s@[i - 1])));
    }
    assert(s@.take(i as int) =~= s@);
    text_of(out.as_slice())
}

/// The digit character of a number below ten.
pub open spec fn digit(n: int) -> char {
    if n == 0 { '0' } else if n == 1 { '1' } else if n == 2 { '2' } else if n == 3 { '3' }
    else if n == 4 { '4' } else if n == 5 { '5' } else if n == 6 { '6' } else if n == 7 { '7' }
    else if n == 8 { '8' } else { '9' }
}

/// The digit character of a number below ten.
pub fn digit_char(n: u64) -> (c: char)
    requires
        n < 10,
    ensures
        c == digit(n as int),
{
    if n == 0 { '0' } else if n == 1 { '1' } else if n == 2 { '2' } else if n == 3 { '3' }
    else if n == 4 { '4' } else if n == 5 { '5' } else if n == 6 { '6' } else if n == 7 { '7' }
    else if n == 8 { '8' } else { '9' }
}

/// Decimal digits of a natural number, no leading zeros, `0` for zero.
pub open spec fn decimal_nat(n: nat) -> Seq<char>
    decreases n,
{
    if n < 10 {
        seq![digit(n as int)]
    } else {
        decimal_nat(n / 10).push(digit((n % 10) as int))
    }
}

/// Decimal form of an integer, with a minus sign before a negative one.
pub open spec fn decimal(n: int) -> Seq<char> {
    if n < 0 {
        seq!['-'] + decimal_nat((-n) as nat)
    } else {
        decimal_nat(n as nat)
    }
}

/// Appends the decimal form of a wide number to a text.
pub fn push_wide(s: &mut String, n: u128)
    ensures
        final(s)@ == old(s)@ + decimal_nat(n as nat),
    decreases n,
{
    if n < 10 {
        s.push(digit_char(n as u64));
        assert(s@ =~= old(s)@ + decimal_nat(n as nat));
    } else {
        push_wide(s, n / 10);
        s.push(digit_char((n % 10) as u64));
        assert(s@ =~= old(s)@ + decimal_nat(n as nat));
    }
}

/// Appends the decimal form of a number to a text.
pub fn push_nat(s: &mut String, n: u64)
    ensures
        final(s)@ == old(s)@ + decimal_nat(n as nat),
{
    push_wide(s, n as u128);
}

/// Appends the decimal form of a signed number to a text.
pub fn push_int(s: &mut String, n: i64)
    ensures
        final(s)@ == old(s)@ + decimal(n as int),
{
    if n == i64::MIN {
        s.push('-');
        push_nat(s, 9_223_372_036_854_775_808);
        assert(s@ =~= old(s)@ + decimal(n as int));
    } else if n < 0 {
        s.push('-');
        push_nat(s, (-n) as u64);
        assert(s@ =~= old(s)@ + decimal(n as int));
    } else {
        push_nat(s, n as u64);
    }
}

/// Decimal form of a number as a text of its own.
pub fn nat_text(n: u64) -> (s: String)
    ensures
        s@ == decimal_nat(n as nat),
{
    let mut s = String::new();
    push_nat(&mut s, n);
    assert(s@ =~= decimal_nat(n as nat));
    s
}

/// A copy of an optional text.
pub fn copy_opt(o: &Option<String>) -> (r: Option<String>)
    ensures
        r == *o,
{
    match o {
        Some(s) => Some(s.clone()),
        None => None,
    }
}

/// A copy of a list of texts.
pub fn copy_texts(v: &Vec<String>) -> (r: Vec<String>)
    ensures
        r@ == v@,
{
    let mut out: Vec<String> = Vec::new();
    let mut i: usize = 0;
    while i < v.len()
        invariant
            i <= v@.len(),
            out@ == v@.take(i as int),
        decreases v.len() - i,
    {
        out.push(v[i].clone());
        i += 1;
        assert(v@.take(i as int) =~= v@.take(i - 1).push(v@[i - 1]));
    }
    assert(v@.take(i as int) =~= v@);
    out
}

/// Whether an optional text is the given text.
pub fn opt_is(o: &Option<String>, t: &str) -> (r: bool)
    ensures
        r == (opt_text(*o) == Some(t@)),
{
    match o {
        Some(s) => text_eq(s.as_str(), t),
        None => false,
    }
}

/// Decimal forms hold digits alone.
pub proof fn lemma_decimal_digits(n: nat)
    ensures
        decimal_nat(n).len() > 0,
        forall|i: int| 0 <= i < decimal_nat(n).len() ==> '0' <= #[trigger] decimal_nat(n)[i] <= '9',
    decreases n,
{
    if n >= 10 {
        lemma_decimal_digits(n / 10);
    }
}

proof fn lemma_digit_differs(x: int, y: int)
    requires
        0 <= x < 10,
        0 <= y < 10,
        digit(x) == digit(y),
    ensures
        x == y,
{
}

/// Different numbers have different decimal forms.
pub proof fn lemma_decimal_differs(a: nat, b: nat)
    requires
        decimal_nat(a) == decimal_nat(b),
    ensures
        a == b,
    decreases a,
{
    lemma_decimal_digits(a / 10);
    lemma_decimal_digits(b / 10);
    if a >= 10 && b >= 10 {
        assert(decimal_nat(a).drop_last() =~= decimal_nat(a / 10));
        assert(decimal_nat(b).drop_last() =~= decimal_nat(b / 10));
        lemma_decimal_differs(a / 10, b / 10);
        assert(decimal_nat(a) == decimal_nat(a / 10).push(digit((a % 10) as int)));
        assert(decimal_nat(b) == decimal_nat(b / 10).push(digit((b % 10) as int)));
        assert(decimal_nat(a).last() == digit((a % 10) as int));
        assert(decimal_nat(b).last() == digit((b % 10) as int));
        lemma_digit_differs((a % 10) as int, (b % 10) as int);
        assert(a == 10 * (a / 10) + a % 10);
        assert(b == 10 * (b / 10) + b % 10);
    } else if a < 10 && b < 10 {
        assert(decimal_nat(a) == seq![digit(a as int)]);
        assert(decimal_nat(b) == seq![digit(b as int)]);
        assert(seq![digit(a as int)][0] == digit(a as int));
        assert(seq![digit(b as int)][0] == digit(b as int));
        lemma_digit_differs(a as int, b as int);
    } else {
        assert(a < 10 ==> decimal_nat(a) == seq![digit(a as int)]);
        assert(b < 10 ==> decimal_nat(b) == seq![digit(b as int)]);
        assert(a >= 10 ==> decimal_nat(a) == decimal_nat(a / 10).push(digit((a % 10) as int)));
        assert(b >= 10 ==> decimal_nat(b) == decimal_nat(b / 10).push(digit((b % 10) as int)));
        assert(seq![digit(a as int)].len() == 1);
        assert(seq![digit(b as int)].len() == 1);
        assert(decimal_nat(a / 10).push(digit((a % 10) as int)).len() > 1);
        assert(decimal_nat(b / 10).push(digit((b % 10) as int)).len() > 1);
        assert(false);
    }
}

/// What stands after the last separator is the same in equal texts.
pub proof fn lemma_after_last(a: Seq<char>, b: Seq<char>, x: Seq<char>, y: Seq<char>, sep: char)
    requires
        a.push(sep) + x == b.push(sep) + y,
        forall|i: int| 0 <= i < x.len() ==> x[i] != sep,
        forall|i: int| 0 <= i < y.len() ==> y[i] != sep,
    ensures
        x == y,
        a == b,
{
    let p = a.push(sep) + x;
    let q = b.push(sep) + y;
    assert(p.len() == a.len() + 1 + x.len());
    assert(q.len() == b.len() + 1 + y.len());
    assert(p == q);
    assert(p[a.len() as int] == sep);
    assert(q[b.len() as int] == sep);
    if a.len() < b.len() {
        assert(p[b.len() as int] == x[b.len() - a.len() - 1]);
        assert(false);
    }
    if b.len() < a.len() {
        assert(q[a.len() as int] == y[a.len() - b.len() - 1]);
        assert(false);
    }
    assert(x =~= p.skip(a.len() as int + 1));
    assert(y =~= q.skip(b.len() as int + 1));
    assert(a =~= p.take(a.len() as int));
    assert(b =~= q.take(b.len() as int));
}

/// Texts put one after another with a separator between them.
pub open spec fn joined_texts(parts: Seq<Seq<char>>, sep: Seq<char>) -> Seq<char>
    decreases parts.len(),
{
    if parts.len() == 0 {
        Seq::empty()
    } else if parts.len() == 1 {
        parts[0]
    } else {
        joined_texts(parts.drop_last(), sep) + sep + parts.last()
    }
}

/// Every text stands whole in what they are joined to.
pub proof fn law_joined_texts_hold_each(parts: Seq<Seq<char>>, sep: Seq<char>, i: int)
    requires
        0 <= i < parts.len(),
    ensures
        contains_text(joined_texts(parts, sep), parts[i]),
    decreases parts.len(),
{
    let whole = joined_texts(parts, sep);
    if parts.len() == 1 {
        assert(whole.subrange(0, whole.len() as int) =~= parts[0]);
        assert(occurs_at(whole, parts[i], 0));
    } else {
        let rest = joined_texts(parts.drop_last(), sep);
        if i < parts.len() - 1 {
            law_joined_texts_hold_each(parts.drop_last(), sep, i);
            let at = choose|at: int| occurs_at(rest, parts.drop_last()[i], at);
            assert(whole.subrange(at, at + parts[i].len()) =~= rest.subrange(
                at,
                at + parts[i].len(),
            ));
            assert(occurs_at(whole, parts[i], at));
        } else {
            let at: int = (rest.len() + sep.len()) as int;
            assert(whole.subrange(at, at + parts[i].len()) =~= parts[i]);
            assert(occurs_at(whole, parts[i], at));
        }
    }
}

/// What occurs in a part of a text occurs in the whole.
pub proof fn lemma_contained(before: Seq<char>, middle: Seq<char>, after: Seq<char>, part: Seq<char>)
    requires
        contains_text(middle, part),
    ensures
        contains_text(before + middle + after, part),
{
    let at = choose|at: int| occurs_at(middle, part, at);
    let whole = before + middle + after;
    let from = before.len() + at;
    assert(whole.subrange(from, from + part.len()) =~= middle.subrange(at, at + part.len()));
    assert(occurs_at(whole, part, from));
}

/// Texts put one after another with a separator between them.
pub fn join_texts(parts: &Vec<String>, sep: &str) -> (r: String)
    ensures
        r@ == joined_texts(texts(parts@), sep@),
{
    let mut out = String::new();
    let mut i: usize = 0;
    assert(texts(parts@.take(0)) =~= Seq::<Seq<char>>::empty());
    while i < parts.len()
        invariant
            i <= parts@.len(),
            out@ == joined_texts(texts(parts@.take(i as int)), sep@),
        decreases parts.len() - i,
    {
        let ghost before = texts(parts@.take(i as int));
        let ghost after = texts(parts@.take(i + 1));
        proof {
            assert(after.drop_last() =~= before);
            assert(after.last() == parts@[i as int]@);
            assert(after[i as int] == parts@[i as int]@);
        }
        if i == 0 {
            out = parts[0].clone();
        } else {
            out.append(sep);
            out.append(parts[i].as_str());
        }
        i += 1;
    }
    assert(parts@.take(i as int) =~= parts@);
    out
}

/// The longest beginning of a text that takes at most so many bytes.
pub open spec fn fitting(s: Seq<char>, max: nat) -> Seq<char>
    decreases s.len(),
{
    if s.len() == 0 || encode_utf8(s).len() <= max {
        s
    } else {
        fitting(s.drop_last(), max)
    }
}

/// The longest beginning of a text that takes at most so many bytes.
pub fn fit(s: &str, max: usize) -> (r: String)
    ensures
        r@ == fitting(s@, max as nat),
{
    let chars = chars_of(s);
    let mut n: usize = chars.len();
    let mut kept = s.to_owned();
    assert(s@.take(n as int) =~= s@);
    while n > 0 && kept.as_str().as_bytes().len() > max
        invariant
            chars@ == s@,
            n <= chars@.len(),
            kept@ == s@.take(n as int),
            fitting(s@, max as nat) == fitting(s@.take(n as int), max as nat),
        decreases n,
    {
        assert(s@.take(n as int).drop_last() =~= s@.take(n - 1));
        n -= 1;
        kept = text_of(vstd::slice::slice_subrange(chars.as_slice(), 0, n));
        assert(kept@ =~= s@.take(n as int));
    }
    kept
}

/// What is kept is a beginning of the text and fits.
pub proof fn lemma_fitting(s: Seq<char>, max: nat)
    ensures
        begins(s, fitting(s, max)),
        encode_utf8(fitting(s, max)).len() <= max,
    decreases s.len(),
{
    if s.len() == 0 {
        assert(encode_utf8(s).len() == 0);
    } else if encode_utf8(s).len() > max {
        lemma_fitting(s.drop_last(), max);
        let kept = fitting(s.drop_last(), max);
        assert(s.take(kept.len() as int) =~= s.drop_last().take(kept.len() as int));
    }
    assert(s.take(s.len() as int) =~= s);
}

/// What std's `Debug` of a text shows.
pub uninterp spec fn debug_of(s: Seq<char>) -> Seq<char>;

/// The `Debug` form of std of a text, through `format!`: the text in quotation
/// marks, with what has to be escaped escaped. Nothing more is said of it than
/// that it depends on the text alone.
#[verifier::external_body]
pub(crate) fn debug_text(s: &str) -> (r: String)
    ensures
        r@ == debug_of(s@),
{
    format!("{s:?}")
}

/// What std's `Debug` of a character shows.
pub uninterp spec fn char_debug_of(c: char) -> Seq<char>;

/// The `Debug` form of std of a character, through `format!`: the character in
/// single quotation marks, escaped where it has to be. Nothing more is said of
/// it than that it depends on the character alone.
#[verifier::external_body]
pub(crate) fn debug_char(c: char) -> (r: String)
    ensures
        r@ == char_debug_of(c),
{
    format!("{c:?}")
}

/// So many spaces.
pub open spec fn spaces(n: nat) -> Seq<char> {
    Seq::new(n, |i: int| ' ')
}

/// A text with spaces behind it, up to a width.
pub open spec fn padded(s: Seq<char>, width: nat) -> Seq<char> {
    if s.len() >= width { s } else { s + spaces((width - s.len()) as nat) }
}

/// A text with spaces before it, up to a width.
pub open spec fn padded_left(s: Seq<char>, width: nat) -> Seq<char> {
    if s.len() >= width { s } else { spaces((width - s.len()) as nat) + s }
}

/// Appends so many spaces.
pub fn push_spaces(s: &mut String, n: usize)
    ensures
        final(s)@ == old(s)@ + spaces(n as nat),
{
    let mut i: usize = 0;
    assert(s@ + spaces(0) =~= s@);
    while i < n
        invariant
            i <= n,
            s@ == old(s)@ + spaces(i as nat),
        decreases n - i,
    {
        s.push(' ');
        i += 1;
        assert(s@ =~= old(s)@ + spaces(i as nat));
    }
}

/// A text with spaces behind it, up to a width.
pub fn pad(s: &str, width: usize) -> (r: String)
    ensures
        r@ == padded(s@, width as nat),
{
    let size: usize = chars_of(s).len();
    let mut out = s.to_owned();
    if size < width {
        push_spaces(&mut out, width - size);
    }
    out
}

/// A text with spaces before it, up to a width.
pub fn pad_left(s: &str, width: usize) -> (r: String)
    ensures
        r@ == padded_left(s@, width as nat),
{
    let size: usize = chars_of(s).len();
    let mut out = String::new();
    if size < width {
        push_spaces(&mut out, width - size);
    }
    out.append(s);
    assert(out@ =~= padded_left(s@, width as nat));
    out
}

/// A number in decimal.
pub fn int_text(n: i64) -> (r: String)
    ensures
        r@ == decimal(n as int),
{
    let mut out = String::new();
    push_int(&mut out, n);
    assert(out@ =~= decimal(n as int));
    out
}

/// Whether a character is white space, as Unicode's `White_Space` has it.
pub open spec fn is_white(c: char) -> bool {
    ||| '\u{9}' <= c <= '\u{d}'
    ||| c == ' '
    ||| c == '\u{85}'
    ||| c == '\u{a0}'
    ||| c == '\u{1680}'
    ||| '\u{2000}' <= c <= '\u{200a}'
    ||| c == '\u{2028}'
    ||| c == '\u{2029}'
    ||| c == '\u{202f}'
    ||| c == '\u{205f}'
    ||| c == '\u{3000}'
}

/// Whether a character is white space.
pub fn white(c: char) -> (r: bool)
    ensures
        r == is_white(c),
{
    ('\u{9}' <= c && c <= '\u{d}') || c == ' ' || c == '\u{85}' || c == '\u{a0}' || c == '\u{1680}'
        || ('\u{2000}' <= c && c <= '\u{200a}') || c == '\u{2028}' || c == '\u{2029}' || c
        == '\u{202f}' || c == '\u{205f}' || c == '\u{3000}'
}

/// A text without white space behind it.
pub open spec fn end_trimmed(s: Seq<char>) -> Seq<char>
    decreases s.len(),
{
    if s.len() > 0 && is_white(s.last()) {
        end_trimmed(s.drop_last())
    } else {
        s
    }
}

/// A text without white space before it.
pub open spec fn start_trimmed(s: Seq<char>) -> Seq<char>
    decreases s.len(),
{
    if s.len() > 0 && is_white(s[0]) {
        start_trimmed(s.skip(1))
    } else {
        s
    }
}

/// A text without white space at its ends.
pub open spec fn trimmed(s: Seq<char>) -> Seq<char> {
    start_trimmed(end_trimmed(s))
}

/// How many of the first characters of a list white space does not follow.
fn kept_end(s: &[char]) -> (end: usize)
    ensures
        end <= s@.len(),
        s@.take(end as int) == end_trimmed(s@),
{
    let mut end: usize = s.len();
    assert(s@.take(end as int) =~= s@);
    while end > 0 && white(s[end - 1])
        invariant
            end <= s@.len(),
            end_trimmed(s@.take(end as int)) == end_trimmed(s@),
        decreases end,
    {
        assert(s@.take(end as int).drop_last() =~= s@.take(end - 1));
        end -= 1;
    }
    end
}

/// Where the first character is, from a position on, that is not white space.
fn kept_start(s: &[char], from: usize) -> (start: usize)
    requires
        from <= s@.len(),
    ensures
        from <= start <= s@.len(),
        s@.skip(start as int) == start_trimmed(s@.skip(from as int)),
{
    let mut start: usize = from;
    while start < s.len() && white(s[start])
        invariant
            from <= start <= s@.len(),
            start_trimmed(s@.skip(start as int)) == start_trimmed(s@.skip(from as int)),
        decreases s.len() - start,
    {
        assert(s@.skip(start as int).skip(1) =~= s@.skip(start + 1));
        start += 1;
    }
    start
}

/// A text without white space at its ends.
pub fn trim(s: &str) -> (r: String)
    ensures
        r@ == trimmed(s@),
{
    let chars = chars_of(s);
    let end = kept_end(chars.as_slice());
    let kept = slice_subrange(chars.as_slice(), 0, end);
    assert(kept@ =~= chars@.take(end as int));
    let start = kept_start(kept, 0);
    assert(kept@.skip(0) =~= kept@);
    let rest = slice_subrange(kept, start, kept.len());
    assert(rest@ =~= kept@.skip(start as int));
    text_of(rest)
}

/// A text without white space behind it.
pub fn trim_end(s: &str) -> (r: String)
    ensures
        r@ == end_trimmed(s@),
{
    let chars = chars_of(s);
    let end = kept_end(chars.as_slice());
    let kept = slice_subrange(chars.as_slice(), 0, end);
    assert(kept@ =~= chars@.take(end as int));
    text_of(kept)
}

/// How many characters of a text stand before its first white space.
pub open spec fn word_length(s: Seq<char>) -> nat
    decreases s.len(),
{
    if s.len() == 0 || is_white(s[0]) {
        0
    } else {
        1 + word_length(s.skip(1))
    }
}

proof fn lemma_start_trimmed(s: Seq<char>)
    ensures
        start_trimmed(s).len() <= s.len(),
        start_trimmed(s).len() > 0 ==> !is_white(start_trimmed(s)[0]),
    decreases s.len(),
{
    if s.len() > 0 && is_white(s[0]) {
        lemma_start_trimmed(s.skip(1));
    }
}

proof fn lemma_word_length(s: Seq<char>)
    ensures
        word_length(s) <= s.len(),
    decreases s.len(),
{
    if s.len() > 0 && !is_white(s[0]) {
        lemma_word_length(s.skip(1));
    }
}

/// The parts of a text that white space parts, none of them empty.
pub open spec fn words_of(s: Seq<char>) -> Seq<Seq<char>>
    decreases s.len(),
    via words_of_decreases
{
    let t = start_trimmed(s);
    if t.len() == 0 {
        Seq::empty()
    } else {
        seq![t.take(word_length(t) as int)] + words_of(t.skip(word_length(t) as int))
    }
}

#[via_fn]
proof fn words_of_decreases(s: Seq<char>) {
    let t = start_trimmed(s);
    lemma_start_trimmed(s);
    lemma_word_length(t);
    if t.len() > 0 {
        assert(word_length(t) >= 1);
        assert(t.skip(word_length(t) as int).len() < s.len());
    }
}

/// How many characters of a list stand, from a position on, before white
/// space.
fn word_end(s: &[char], from: usize) -> (end: usize)
    requires
        from <= s@.len(),
    ensures
        end == from + word_length(s@.skip(from as int)),
        end <= s@.len(),
{
    let mut end: usize = from;
    while end < s.len() && !white(s[end])
        invariant
            from <= end <= s@.len(),
            end + word_length(s@.skip(end as int)) == from + word_length(s@.skip(from as int)),
        decreases s.len() - end,
    {
        assert(s@.skip(end as int).skip(1) =~= s@.skip(end + 1));
        end += 1;
    }
    end
}

/// The parts of a text that white space parts.
pub fn words(s: &str) -> (r: Vec<String>)
    ensures
        texts(r@) == words_of(s@),
{
    let chars = chars_of(s);
    let mut out: Vec<String> = Vec::new();
    let mut at: usize = kept_start(chars.as_slice(), 0);
    proof {
        assert(chars@.skip(0) =~= chars@);
        lemma_start_trimmed(chars@);
        lemma_trimmed_again(chars@);
        assert(texts(out@) + words_of(chars@.skip(at as int)) =~= words_of(s@));
    }
    while at < chars.len()
        invariant
            at <= chars@.len(),
            chars@ == s@,
            start_trimmed(chars@.skip(at as int)) == chars@.skip(at as int),
            texts(out@) + words_of(chars@.skip(at as int)) == words_of(s@),
        decreases chars.len() - at,
    {
        let ghost t = chars@.skip(at as int);
        let ghost before = out@;
        proof {
            lemma_start_trimmed(t);
            lemma_word_length(t);
        }
        let end = word_end(chars.as_slice(), at);
        let word = slice_subrange(chars.as_slice(), at, end);
        assert(word@ =~= t.take(word_length(t) as int));
        out.push(text_of(word));
        let next = kept_start(chars.as_slice(), end);
        proof {
            assert(texts(out@) =~= texts(before).push(word@));
            assert(t.skip(word_length(t) as int) =~= chars@.skip(end as int));
            assert(word_length(t) >= 1);
            lemma_trimmed_again(chars@.skip(end as int));
            assert(texts(before) + (seq![word@] + words_of(chars@.skip(end as int))) =~= texts(
                before,
            ).push(word@) + words_of(chars@.skip(end as int)));
        }
        at = next;
    }
    proof {
        assert(chars@.skip(at as int) =~= Seq::<char>::empty());
        assert(texts(out@) + Seq::<Seq<char>>::empty() =~= texts(out@));
    }
    out
}

/// White space before a text adds no words and can be left off once.
proof fn lemma_trimmed_again(s: Seq<char>)
    ensures
        start_trimmed(start_trimmed(s)) == start_trimmed(s),
        words_of(start_trimmed(s)) == words_of(s),
    decreases s.len(),
{
    lemma_start_trimmed(s);
}

/// Where the first line break of a text is, from a position.
pub open spec fn break_from(s: Seq<char>, from: int) -> int
    decreases s.len() - from,
{
    if from >= s.len() || s[from] == '\n' {
        from
    } else {
        break_from(s, from + 1)
    }
}

/// A line without the carriage return that belongs to its end.
pub open spec fn without_return(line: Seq<char>) -> Seq<char> {
    if line.len() > 0 && line.last() == '\r' { line.drop_last() } else { line }
}

/// The lines of a text. A line ends at a line break, with or without a carriage
/// return before it; the last one needs no end.
pub open spec fn lines_of(s: Seq<char>) -> Seq<Seq<char>>
    decreases s.len(),
{
    let at = break_from(s, 0);
    if s.len() == 0 {
        Seq::empty()
    } else if at >= s.len() || at < 0 {
        seq![s]
    } else {
        seq![without_return(s.take(at))] + lines_of(s.skip(at + 1))
    }
}

proof fn lemma_break_from(s: Seq<char>, from: int)
    requires
        0 <= from <= s.len(),
    ensures
        from <= break_from(s, from) <= s.len(),
    decreases s.len() - from,
{
    if from < s.len() && s[from] != '\n' {
        lemma_break_from(s, from + 1);
    }
}

/// The lines of a text.
pub fn lines(s: &str) -> (r: Vec<String>)
    ensures
        texts(r@) == lines_of(s@),
{
    let chars = chars_of(s);
    let size: usize = chars.len();
    let mut out: Vec<String> = Vec::new();
    let mut start: usize = 0;
    proof {
        assert(s@.skip(0) =~= s@);
        assert(texts(out@) + lines_of(s@) =~= lines_of(s@));
    }
    while start < size
        invariant
            chars@ == s@,
            size == chars@.len(),
            start <= size,
            texts(out@) + lines_of(s@.skip(start as int)) == lines_of(s@),
        decreases size - start,
    {
        let ghost rest = s@.skip(start as int);
        let ghost done = texts(out@);
        let mut end: usize = start;
        proof {
            lemma_break_from(rest, 0);
        }
        while end < size && chars[end] != '\n'
            invariant
                chars@ == s@,
                size == chars@.len(),
                start <= end <= size,
                rest == s@.skip(start as int),
                break_from(rest, 0) == break_from(rest, end - start),
            decreases size - end,
        {
            assert(rest[end - start] == s@[end as int]);
            end += 1;
        }
        let ghost at = break_from(rest, 0);
        if end < size {
            assert(rest[end - start] == s@[end as int]);
            assert(at == end - start);
            let mut stop: usize = end;
            if stop > start && chars[stop - 1] == '\r' {
                stop -= 1;
            }
            let line = text_of(vstd::slice::slice_subrange(chars.as_slice(), start, stop));
            proof {
                assert(rest.take(at).len() > 0 ==> rest.take(at).last() == s@[end - 1]);
                assert(line@ =~= without_return(rest.take(at)));
                assert(rest.skip(at + 1) =~= s@.skip(end + 1));
            }
            out.push(line);
            start = end + 1;
            proof {
                assert(texts(out@) =~= done.push(line@));
                assert(texts(out@) + lines_of(s@.skip(start as int)) =~= done + (seq![line@]
                    + lines_of(s@.skip(start as int))));
            }
        } else {
            let line = text_of(vstd::slice::slice_subrange(chars.as_slice(), start, size));
            assert(line@ =~= rest);
            assert(at == rest.len());
            out.push(line);
            start = size;
            proof {
                assert(texts(out@) =~= done.push(line@));
                assert(s@.skip(start as int) =~= Seq::<char>::empty());
                assert(texts(out@) + lines_of(s@.skip(start as int)) =~= done + seq![line@]);
            }
        }
    }
    assert(s@.skip(start as int) =~= Seq::<char>::empty());
    assert(texts(out@) =~= texts(out@) + Seq::<Seq<char>>::empty());
    out
}

} // verus!
