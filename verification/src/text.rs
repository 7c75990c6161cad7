//! Character-level helpers shared by the lexer, the value model and the
//! protocol layer: whitespace, ASCII case folding, ordering of text and the
//! decimal notation of integers.

use vstd::prelude::*;
use vstd::string::*;

verus! {

/// `String::push` of the standard library: the character is appended to the
/// end of the string and nothing else changes.
pub assume_specification[ String::push ](s: &mut String, c: char)
    ensures
        final(s)@ == old(s)@.push(c),
;

/// The characters of a string slice, in order.
pub fn chars_of(s: &str) -> (v: Vec<char>)
    ensures
        v@ == s@,
{
    let mut v: Vec<char> = Vec::new();
    for c in it: s.chars()
        invariant
            v@ == it.seq().take(it.index() as int),
            it.seq() == s@,
    {
        v.push(c);
    }
    v
}

/// The string made of `v[from..to]`.
pub(crate) fn string_of_range(v: &Vec<char>, from: usize, to: usize) -> (s: String)
    requires
        from <= to <= v.len(),
    ensures
        s@ == v@.subrange(from as int, to as int),
{
    let mut s = String::new();
    let mut i: usize = from;
    while i < to
        invariant
            from <= i <= to <= v.len(),
            s@ == v@.subrange(from as int, i as int),
        decreases to - i,
    {
        s.push(v[i]);
        assert(v@.subrange(from as int, i + 1) == v@.subrange(from as int, i as int).push(v@[i as int]));
        i += 1;
    }
    s
}

/// The string made of all of `v`.
pub fn string_of(v: &Vec<char>) -> (s: String)
    ensures
        s@ == v@,
{
    let s = string_of_range(v, 0, v.len());
    assert(v@.subrange(0, v.len() as int) == v@);
    s
}

/// Unicode's White_Space property, the set that separates words.
pub open spec fn is_space(c: char) -> bool {
    let u = c as u32;
    (0x09 <= u <= 0x0D) || u == 0x20 || u == 0x85 || u == 0xA0 || u == 0x1680 || (0x2000 <= u
        <= 0x200A) || u == 0x2028 || u == 0x2029 || u == 0x202F || u == 0x205F || u == 0x3000
}

/// Whether a character is white space.
pub fn is_whitespace(c: char) -> (r: bool)
    ensures
        r == is_space(c),
{
    let u = c as u32;
    (0x09 <= u && u <= 0x0D) || u == 0x20 || u == 0x85 || u == 0xA0 || u == 0x1680 || (0x2000 <= u
        && u <= 0x200A) || u == 0x2028 || u == 0x2029 || u == 0x202F || u == 0x205F || u
        == 0x3000
}

/// A class of characters that a scan runs over.
#[derive(Clone, Copy, PartialEq, Eq, Structural, Debug)]
pub enum CharClass {
    /// White space.
    Space,
    /// Anything but white space.
    Word,
    /// An ASCII letter, an ASCII digit or the underscore.
    Name,
    /// An ASCII digit.
    Digit,
}

/// Whether a character is an ASCII digit.
pub open spec fn is_digit(c: char) -> bool {
    '0' <= c <= '9'
}

/// Whether a character is an ASCII letter or the underscore.
pub open spec fn is_letter(c: char) -> bool {
    ('a' <= c <= 'z') || ('A' <= c <= 'Z') || c == '_'
}

/// Whether a character belongs to a class.
pub open spec fn in_class(c: char, class: CharClass) -> bool {
    match class {
        CharClass::Space => is_space(c),
        CharClass::Word => !is_space(c),
        CharClass::Name => is_letter(c) || is_digit(c),
        CharClass::Digit => is_digit(c),
    }
}

/// Whether a character is an ASCII digit.
pub fn digit_test(c: char) -> (r: bool)
    ensures
        r == is_digit(c),
{
    '0' <= c && c <= '9'
}

/// Whether a character is an ASCII letter or the underscore.
pub fn letter_test(c: char) -> (r: bool)
    ensures
        r == is_letter(c),
{
    ('a' <= c && c <= 'z') || ('A' <= c && c <= 'Z') || c == '_'
}

/// Whether a character belongs to a class.
pub fn class_test(c: char, class: CharClass) -> (r: bool)
    ensures
        r == in_class(c, class),
{
    match class {
        CharClass::Space => is_whitespace(c),
        CharClass::Word => !is_whitespace(c),
        CharClass::Name => letter_test(c) || digit_test(c),
        CharClass::Digit => digit_test(c),
    }
}

/// How many characters at the front of `s` belong to `class`.
pub open spec fn run(s: Seq<char>, class: CharClass) -> nat
    decreases s.len(),
{
    if s.len() > 0 && in_class(s[0], class) {
        1 + run(s.drop_first(), class)
    } else {
        0
    }
}

/// A run is no longer than the text that it is a run of.
pub proof fn lemma_run_bound(s: Seq<char>, class: CharClass)
    ensures
        run(s, class) <= s.len(),
    decreases s.len(),
{
    if s.len() > 0 {
        lemma_run_bound(s.drop_first(), class);
    }
}

/// Each character of a run belongs to its class.
pub proof fn lemma_run_all(s: Seq<char>, class: CharClass, i: int)
    requires
        0 <= i < run(s, class),
    ensures
        i < s.len(),
        in_class(s[i], class),
    decreases i,
{
    if i > 0 {
        lemma_run_all(s.drop_first(), class, i - 1);
    }
}

/// The first maximal run of characters of `s` that holds no white space, or
/// the word `unknown` where `s` holds nothing else.
pub open spec fn first_word_spec(s: Seq<char>) -> Seq<char> {
    let rest = s.skip(run(s, CharClass::Space) as int);
    if run(rest, CharClass::Word) == 0 {
        "unknown"@
    } else {
        rest.take(run(rest, CharClass::Word) as int)
    }
}

/// The end of the run of `class` that starts at `from`.
pub(crate) fn scan(v: &Vec<char>, from: usize, class: CharClass) -> (to: usize)
    requires
        from <= v.len(),
    ensures
        from <= to <= v.len(),
        to - from == run(v@.skip(from as int), class),
{
    let mut i: usize = from;
    while i < v.len() && class_test(v[i], class)
        invariant
            from <= i <= v.len(),
            run(v@.skip(from as int), class) == (i - from) + run(v@.skip(i as int), class),
        decreases v.len() - i,
    {
        assert(v@.skip(i as int).drop_first() == v@.skip(i + 1));
        i += 1;
    }
    i
}

/// The first word of a statement, for messages about it.
pub fn first_word(sql: &str) -> (word: &str)
    ensures
        word@ == first_word_spec(sql@),
{
    let v = chars_of(sql);
    let a = scan(&v, 0, CharClass::Space);
    assert(v@.skip(0) == v@);
    let b = scan(&v, a, CharClass::Word);
    if a == b {
        "unknown"
    } else {
        let word = sql.substring_char(a, b);
        assert(v@.skip(a as int).take(b - a) == v@.subrange(a as int, b as int));
        word
    }
}

/// ASCII lower case of a character; others are left as they are.
pub open spec fn lower(c: char) -> char {
    if 'A' <= c <= 'Z' {
        ((c as u8) + 32) as char
    } else {
        c
    }
}

/// ASCII lower case of a character.
pub fn to_lower(c: char) -> (r: char)
    ensures
        r == lower(c),
{
    if 'A' <= c && c <= 'Z' {
        ((c as u8) + 32) as char
    } else {
        c
    }
}

/// ASCII upper case of a character; others are left as they are.
pub open spec fn upper(c: char) -> char {
    if 'a' <= c <= 'z' {
        ((c as u8) - 32) as char
    } else {
        c
    }
}

/// ASCII upper case of a character.
pub fn to_upper(c: char) -> (r: char)
    ensures
        r == upper(c),
{
    if 'a' <= c && c <= 'z' {
        ((c as u8) - 32) as char
    } else {
        c
    }
}

/// A text with each character in ASCII lower case.
pub open spec fn lower_text(s: Seq<char>) -> Seq<char> {
    s.map_values(|c: char| lower(c))
}

/// A text with each character in ASCII upper case.
pub open spec fn upper_text(s: Seq<char>) -> Seq<char> {
    s.map_values(|c: char| upper(c))
}

/// Two names are the same name when they agree up to ASCII case.
pub open spec fn same_name(a: Seq<char>, b: Seq<char>) -> bool {
    lower_text(a) == lower_text(b)
}

/// Whether two names are the same name.
pub fn names_match(a: &Vec<char>, b: &Vec<char>) -> (r: bool)
    ensures
        r == same_name(a@, b@),
{
    if a.len() != b.len() {
        assert(lower_text(a@).len() != lower_text(b@).len());
        return false;
    }
    let mut i: usize = 0;
    while i < a.len()
        invariant
            i <= a.len(),
            a.len() == b.len(),
            forall|j: int| 0 <= j < i ==> lower(a@[j]) == lower(b@[j]),
        decreases a.len() - i,
    {
        if to_lower(a[i]) != to_lower(b[i]) {
            assert(lower_text(a@)[i as int] != lower_text(b@)[i as int]);
            return false;
        }
        i += 1;
    }
    assert(lower_text(a@) =~= lower_text(b@));
    true
}

/// Whether two names are the same name.
pub fn strs_match(a: &str, b: &str) -> (r: bool)
    ensures
        r == same_name(a@, b@),
{
    let x = chars_of(a);
    let y = chars_of(b);
    names_match(&x, &y)
}


/// Whether `v` holds exactly the characters of `s`.
pub fn is_text(v: &Vec<char>, s: &str) -> (r: bool)
    ensures
        r == (v@ == s@),
{
    let w = chars_of(s);
    if v.len() != w.len() {
        return false;
    }
    let mut i: usize = 0;
    while i < v.len()
        invariant
            i <= v.len(),
            v.len() == w.len(),
            w@ == s@,
            forall|j: int| 0 <= j < i ==> v@[j] == w@[j],
        decreases v.len() - i,
    {
        if v[i] != w[i] {
            assert(v@[i as int] != s@[i as int]);
            return false;
        }
        i += 1;
    }
    assert(v@ =~= w@);
    true
}

/// `v[from..to]` with each character in ASCII lower case.
pub(crate) fn lower_range(v: &Vec<char>, from: usize, to: usize) -> (w: Vec<char>)
    requires
        from <= to <= v.len(),
    ensures
        w@ == lower_text(v@.subrange(from as int, to as int)),
{
    let mut w: Vec<char> = Vec::new();
    let mut i: usize = from;
    while i < to
        invariant
            from <= i <= to <= v.len(),
            w@.len() == i - from,
            forall|j: int| 0 <= j < i - from ==> w@[j] == lower(v@[from + j]),
        decreases to - i,
    {
        w.push(to_lower(v[i]));
        i += 1;
    }
    assert(w@ =~= lower_text(v@.subrange(from as int, to as int)));
    w
}

} // verus!
