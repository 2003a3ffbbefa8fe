//! Text as sequences of characters.
//!
//! Every rule of this crate that looks inside a string is stated over
//! `Seq<char>`, the view of `String` and `str`. This module holds the small
//! vocabulary those rules share, each piece with its executable counterpart.
use vstd::prelude::*;
use vstd::string::*;
use crate::seqs::{first_at, first_at_index, first_at_is_first, group_views, push_contains, views};

verus! {

broadcast use group_views;

/// Appends one character; the documented behaviour of `String::push`.
pub assume_specification[ String::push ](s: &mut String, c: char)
    ensures
        final(s)@ == old(s)@.push(c),
;

/// The characters of a string, in order.
pub fn chars_of(s: &str) -> (out: Vec<char>)
    ensures
        out@ == s@,
{
    let mut out: Vec<char> = Vec::new();
    for c in it: s.chars()
        invariant
            out@ == s@.take(it.index()),
            it.seq() == s@,
    {
        out.push(c);
    }
    assert(s@.take(s@.len() as int) == s@);
    out
}

/// The string made of the given characters.
pub fn string_of(chars: &[char]) -> (out: String)
    ensures
        out@ == chars@,
{
    let mut out = String::new();
    let mut i: usize = 0;
    while i < chars.len()
        invariant
            i <= chars.len(),
            out@ == chars@.take(i as int),
        decreases chars.len() - i,
    {
        out.push(chars[i]);
        i += 1;
    }
    assert(chars@.take(chars@.len() as int) == chars@);
    out
}

/// Whether two strings hold the same characters.
pub fn same_text(a: &str, b: &str) -> (same: bool)
    ensures
        same == (a@ == b@),
{
    same_chars(chars_of(a).as_slice(), chars_of(b).as_slice())
}

/// Whether two slices hold the same characters.
pub fn same_chars(a: &[char], b: &[char]) -> (same: bool)
    ensures
        same == (a@ == b@),
{
    if a.len() != b.len() {
        return false;
    }
    let mut i: usize = 0;
    while i < a.len()
        invariant
            i <= a.len(),
            a.len() == b.len(),
            a@.take(i as int) == b@.take(i as int),
        decreases a.len() - i,
    {
        if a[i] != b[i] {
            assert(a@[i as int] != b@[i as int]);
            return false;
        }
        assert(a@.take(i + 1) == a@.take(i as int).push(a@[i as int]));
        assert(b@.take(i + 1) == b@.take(i as int).push(b@[i as int]));
        i += 1;
    }
    assert(a@.take(a@.len() as int) == a@);
    assert(b@.take(b@.len() as int) == b@);
    true
}

/// Whether `s` begins with `prefix`.
pub fn starts_with(s: &str, prefix: &str) -> (out: bool)
    ensures
        out == prefix@.is_prefix_of(s@),
{
    let chars = chars_of(s);
    let lead = chars_of(prefix);
    if lead.len() > chars.len() {
        return false;
    }
    let mut i: usize = 0;
    while i < lead.len()
        invariant
            i <= lead.len() <= chars.len(),
            lead@ == prefix@,
            chars@ == s@,
            forall|k: int| 0 <= k < i ==> lead@[k] == chars@[k],
        decreases lead.len() - i,
    {
        if chars[i] != lead[i] {
            assert(chars@.subrange(0, lead@.len() as int)[i as int] != lead@[i as int]);
            return false;
        }
        i += 1;
    }
    assert(lead@ =~= chars@.subrange(0, lead@.len() as int));
    true
}

/// A decimal digit.
pub open spec fn digit(d: nat) -> char {
    if d == 0 {
        '0'
    } else if d == 1 {
        '1'
    } else if d == 2 {
        '2'
    } else if d == 3 {
        '3'
    } else if d == 4 {
        '4'
    } else if d == 5 {
        '5'
    } else if d == 6 {
        '6'
    } else if d == 7 {
        '7'
    } else if d == 8 {
        '8'
    } else {
        '9'
    }
}

/// A number in decimal notation.
pub open spec fn decimal(n: nat) -> Seq<char>
    decreases n,
{
    if n < 10 {
        seq![digit(n)]
    } else {
        decimal(n / 10).push(digit(n % 10))
    }
}

fn digit_char(d: u64) -> (out: char)
    requires
        d < 10,
    ensures
        out == digit(d as nat),
{
    match d {
        0 => '0',
        1 => '1',
        2 => '2',
        3 => '3',
        4 => '4',
        5 => '5',
        6 => '6',
        7 => '7',
        8 => '8',
        _ => '9',
    }
}

/// Appends a number in decimal notation.
pub fn push_decimal(out: &mut String, n: u64)
    ensures
        final(out)@ == old(out)@ + decimal(n as nat),
    decreases n,
{
    let ghost before = out@;
    if n >= 10 {
        push_decimal(out, n / 10);
    }
    out.push(digit_char(n % 10));
    assert(out@ =~= before + decimal(n as nat));
}

/// A number in decimal notation.
pub fn decimal_text(n: u64) -> (out: String)
    ensures
        out@ == decimal(n as nat),
{
    let mut out = String::new();
    push_decimal(&mut out, n);
    assert(out@ =~= decimal(n as nat));
    out
}

// ── Classes of characters ───────────────────────────────────────────────────

/// The characters with Unicode's `White_Space` property.
pub open spec fn is_space(c: char) -> bool {
    let n = c as u32;
    ||| 9 <= n <= 13
    ||| n == 0x20
    ||| n == 0x85
    ||| n == 0xa0
    ||| n == 0x1680
    ||| 0x2000 <= n <= 0x200a
    ||| n == 0x2028
    ||| n == 0x2029
    ||| n == 0x202f
    ||| n == 0x205f
    ||| n == 0x3000
}

/// Whether a character is white space.
pub fn space(c: char) -> (out: bool)
    ensures
        out == is_space(c),
{
    let n = c as u32;
    (9 <= n && n <= 13) || n == 0x20 || n == 0x85 || n == 0xa0 || n == 0x1680 || (0x2000 <= n && n
        <= 0x200a) || n == 0x2028 || n == 0x2029 || n == 0x202f || n == 0x205f || n == 0x3000
}

/// The ASCII digits.
pub open spec fn is_digit(c: char) -> bool {
    '0' as u32 <= c as u32 <= '9' as u32
}

/// Whether a character is an ASCII digit.
pub fn digit_like(c: char) -> (out: bool)
    ensures
        out == is_digit(c),
{
    let n = c as u32;
    '0' as u32 <= n && n <= '9' as u32
}

/// The ASCII letters and digits, `-`, `_` and `.`.
pub open spec fn is_name_char(c: char) -> bool {
    ||| is_digit(c)
    ||| 'a' as u32 <= c as u32 <= 'z' as u32
    ||| 'A' as u32 <= c as u32 <= 'Z' as u32
    ||| c == '-'
    ||| c == '_'
    ||| c == '.'
}

/// Whether a character may stand in a repo's name or a tag.
pub fn name_char(c: char) -> (out: bool)
    ensures
        out == is_name_char(c),
{
    let n = c as u32;
    digit_like(c) || ('a' as u32 <= n && n <= 'z' as u32) || ('A' as u32 <= n && n <= 'Z' as u32)
        || c == '-' || c == '_' || c == '.'
}

/// An ASCII capital letter in small; any other character as it is.
pub open spec fn small(c: char) -> char {
    if 'A' as u32 <= c as u32 <= 'Z' as u32 {
        ((c as u32) + 32) as char
    } else {
        c
    }
}

/// A text with its ASCII letters in small.
pub open spec fn lower(s: Seq<char>) -> Seq<char> {
    s.map_values(|c: char| small(c))
}

fn small_char(c: char) -> (out: char)
    ensures
        out == small(c),
{
    let n = c as u32;
    if 'A' as u32 <= n && n <= 'Z' as u32 {
        (c as u8 + 32) as char
    } else {
        c
    }
}

/// Some characters with the ASCII letters in small.
pub fn lower_chars(s: &[char]) -> (out: Vec<char>)
    ensures
        out@ == lower(s@),
{
    let mut out: Vec<char> = Vec::new();
    let mut i: usize = 0;
    while i < s.len()
        invariant
            i <= s.len(),
            out@ == lower(s@.take(i as int)),
        decreases s.len() - i,
    {
        assert(lower(s@.take(i + 1)) =~= lower(s@.take(i as int)).push(small(s@[i as int])));
        out.push(small_char(s[i]));
        i += 1;
    }
    assert(s@.take(s@.len() as int) =~= s@);
    out
}

// ── Order ───────────────────────────────────────────────────────────────────

/// The order of texts: by their first difference, a shorter one before a
/// longer one that begins with it.
pub open spec fn text_le(a: Seq<char>, b: Seq<char>) -> bool
    decreases a.len(),
{
    if a.len() == 0 {
        true
    } else if b.len() == 0 {
        false
    } else if a[0] == b[0] {
        text_le(a.drop_first(), b.drop_first())
    } else {
        (a[0] as int) < (b[0] as int)
    }
}

/// Of two texts one comes first.
pub proof fn text_le_total(a: Seq<char>, b: Seq<char>)
    ensures
        text_le(a, b) || text_le(b, a),
    decreases a.len(),
{
    if a.len() > 0 && b.len() > 0 {
        text_le_total(a.drop_first(), b.drop_first());
    }
}

/// Texts that come before each other are the same.
pub proof fn text_le_same(a: Seq<char>, b: Seq<char>)
    requires
        text_le(a, b),
        text_le(b, a),
    ensures
        a == b,
    decreases a.len(),
{
    if a.len() > 0 && b.len() > 0 {
        text_le_same(a.drop_first(), b.drop_first());
        assert(a =~= seq![a[0]] + a.drop_first());
        assert(b =~= seq![b[0]] + b.drop_first());
    } else {
        assert(a =~= b);
    }
}

/// The order goes on.
pub proof fn text_le_chain(a: Seq<char>, b: Seq<char>, c: Seq<char>)
    requires
        text_le(a, b),
        text_le(b, c),
    ensures
        text_le(a, c),
    decreases a.len(),
{
    if a.len() > 0 && b.len() > 0 && c.len() > 0 {
        if a[0] == b[0] && b[0] == c[0] {
            text_le_chain(a.drop_first(), b.drop_first(), c.drop_first());
        }
    }
}

fn before(x: char, y: char) -> (out: bool)
    ensures
        out == ((x as int) < (y as int)),
{
    (x as u32) < (y as u32)
}

/// Whether `a` comes no later than `b`.
pub fn no_later(a: &[char], b: &[char]) -> (out: bool)
    ensures
        out == text_le(a@, b@),
{
    let mut i: usize = 0;
    assert(a@.skip(0) =~= a@ && b@.skip(0) =~= b@);
    while i < a.len()
        invariant
            i <= a.len(),
            i <= b.len(),
            text_le(a@, b@) == text_le(a@.skip(i as int), b@.skip(i as int)),
        decreases a.len() - i,
    {
        if i >= b.len() {
            return false;
        }
        let x: char = a[i];
        let y: char = b[i];
        if x != y {
            return before(x, y);
        }
        assert(a@.skip(i as int).drop_first() =~= a@.skip(i + 1));
        assert(b@.skip(i as int).drop_first() =~= b@.skip(i + 1));
        i += 1;
    }
    true
}

// ── Parts ───────────────────────────────────────────────────────────────────

/// What follows a prefix.
pub open spec fn after_prefix(s: Seq<char>, prefix: Seq<char>) -> Option<Seq<char>> {
    if prefix.is_prefix_of(s) {
        Some(s.skip(prefix.len() as int))
    } else {
        None
    }
}

/// What precedes a suffix.
pub open spec fn before_suffix(s: Seq<char>, suffix: Seq<char>) -> Option<Seq<char>> {
    if suffix.is_suffix_of(s) {
        Some(s.take(s.len() - suffix.len()))
    } else {
        None
    }
}

/// What stands before and after the first `c`.
pub open spec fn cut(s: Seq<char>, c: char) -> Option<(Seq<char>, Seq<char>)> {
    match first_at(s, c) {
        Some(i) => Some((s.take(i), s.skip(i + 1))),
        None => None,
    }
}

/// What follows the last `/`.
pub open spec fn base_name(s: Seq<char>) -> Seq<char>
    decreases s.len(),
{
    if s.len() == 0 || s.last() == '/' {
        Seq::empty()
    } else {
        base_name(s.drop_last()).push(s.last())
    }
}

/// A text without the `/` at its end.
pub open spec fn trim_slashes(s: Seq<char>) -> Seq<char>
    decreases s.len(),
{
    if s.len() > 0 && s.last() == '/' {
        trim_slashes(s.drop_last())
    } else {
        s
    }
}

/// The pieces of a text between the characters that separate.
pub open spec fn pieces(s: Seq<char>, separates: spec_fn(char) -> bool) -> Seq<Seq<char>>
    decreases s.len(),
{
    if s.len() == 0 {
        seq![Seq::empty()]
    } else {
        let before = pieces(s.drop_last(), separates);
        if separates(s.last()) {
            before.push(Seq::empty())
        } else {
            before.drop_last().push(before.last().push(s.last()))
        }
    }
}

/// There is always a piece.
pub proof fn pieces_exist(s: Seq<char>, separates: spec_fn(char) -> bool)
    ensures
        pieces(s, separates).len() > 0,
    decreases s.len(),
{
    if s.len() > 0 {
        pieces_exist(s.drop_last(), separates);
    }
}

/// Those of some texts that are not empty.
pub open spec fn filled(parts: Seq<Seq<char>>) -> Seq<Seq<char>>
    decreases parts.len(),
{
    if parts.len() == 0 {
        parts
    } else if parts.last().len() == 0 {
        filled(parts.drop_last())
    } else {
        filled(parts.drop_last()).push(parts.last())
    }
}

/// What follows a prefix, if the text has it.
pub fn strip_prefix(s: &[char], prefix: &str) -> (out: Option<Vec<char>>)
    ensures
        match out {
            Some(rest) => after_prefix(s@, prefix@) == Some(rest@),
            None => after_prefix(s@, prefix@) is None,
        },
{
    let lead = chars_of(prefix);
    if lead.len() > s.len() {
        return None;
    }
    let head = part_of(s, 0, lead.len());
    if same_chars(head.as_slice(), lead.as_slice()) {
        let rest = part_of(s, lead.len(), s.len());
        assert(s@.skip(lead@.len() as int) =~= rest@);
        Some(rest)
    } else {
        None
    }
}

/// What precedes a suffix, if the text has it.
pub fn strip_suffix(s: &[char], suffix: &str) -> (out: Option<Vec<char>>)
    ensures
        match out {
            Some(rest) => before_suffix(s@, suffix@) == Some(rest@),
            None => before_suffix(s@, suffix@) is None,
        },
{
    let tail = chars_of(suffix);
    if tail.len() > s.len() {
        return None;
    }
    let at = s.len() - tail.len();
    let end = part_of(s, at, s.len());
    if same_chars(end.as_slice(), tail.as_slice()) {
        let rest = part_of(s, 0, at);
        assert(s@.take(at as int) =~= rest@);
        Some(rest)
    } else {
        None
    }
}

/// A stretch of some characters.
pub fn part_of(s: &[char], from: usize, to: usize) -> (out: Vec<char>)
    requires
        from <= to <= s.len(),
    ensures
        out@ == s@.subrange(from as int, to as int),
{
    let mut out: Vec<char> = Vec::new();
    let mut i: usize = from;
    while i < to
        invariant
            from <= i <= to <= s.len(),
            out@ == s@.subrange(from as int, i as int),
        decreases to - i,
    {
        out.push(s[i]);
        assert(out@ =~= s@.subrange(from as int, i + 1));
        i += 1;
    }
    out
}

/// The place of the first `c`.
pub fn place_of(s: &[char], c: char) -> (out: Option<usize>)
    ensures
        match out {
            Some(i) => first_at(s@, c) == Some(i as int) && i < s.len(),
            None => first_at(s@, c) is None,
        },
{
    let mut i: usize = 0;
    while i < s.len()
        invariant
            i <= s.len(),
            forall|k: int| 0 <= k < i ==> s@[k] != c,
        decreases s.len() - i,
    {
        if s[i] == c {
            proof {
                first_at_index(s@, c, i as int);
            }
            return Some(i);
        }
        i += 1;
    }
    proof {
        first_at_is_first(s@, c);
    }
    None
}

/// What stands before and after the first `c`.
pub fn split_once(s: &[char], c: char) -> (out: Option<(Vec<char>, Vec<char>)>)
    ensures
        match out {
            Some(parts) => cut(s@, c) == Some((parts.0@, parts.1@)),
            None => cut(s@, c) is None,
        },
{
    match place_of(s, c) {
        Some(i) => {
            let before = part_of(s, 0, i);
            let after = part_of(s, i + 1, s.len());
            assert(before@ =~= s@.take(i as int));
            assert(after@ =~= s@.skip(i + 1));
            Some((before, after))
        },
        None => None,
    }
}

/// What follows the last `/`.
pub fn base_of(s: &[char]) -> (out: Vec<char>)
    ensures
        out@ == base_name(s@),
{
    let mut out: Vec<char> = Vec::new();
    let mut i: usize = 0;
    assert(s@.take(0) =~= Seq::empty());
    while i < s.len()
        invariant
            i <= s.len(),
            out@ == base_name(s@.take(i as int)),
        decreases s.len() - i,
    {
        assert(s@.take(i + 1).drop_last() =~= s@.take(i as int));
        if s[i] == '/' {
            out = Vec::new();
        } else {
            out.push(s[i]);
        }
        i += 1;
    }
    assert(s@.take(s@.len() as int) =~= s@);
    out
}

/// A text without the `/` at its end.
pub fn without_slashes(s: Vec<char>) -> (out: Vec<char>)
    ensures
        out@ == trim_slashes(s@),
{
    let mut out = s;
    while out.len() > 0 && out[out.len() - 1] == '/'
        invariant
            trim_slashes(out@) == trim_slashes(s@),
        decreases out.len(),
    {
        assert(out@.drop_last() =~= out@.subrange(0, out@.len() - 1));
        let _ = out.pop();
    }
    out
}

/// Whether every character may stand in a repo's name or a tag.
pub fn all_name_chars(s: &[char]) -> (out: bool)
    ensures
        out == (forall|i: int| 0 <= i < s@.len() ==> is_name_char(#[trigger] s@[i])),
{
    let mut i: usize = 0;
    while i < s.len()
        invariant
            i <= s.len(),
            forall|k: int| 0 <= k < i ==> is_name_char(#[trigger] s@[k]),
        decreases s.len() - i,
    {
        if !name_char(s[i]) {
            return false;
        }
        i += 1;
    }
    true
}

/// The test for one of two characters.
pub open spec fn either(a: char, b: char) -> spec_fn(char) -> bool {
    |c: char| c == a || c == b
}

/// The pieces of a text between two separating characters.
pub fn split_on(s: &[char], a: char, b: char) -> (out: Vec<Vec<char>>)
    ensures
        views(out@) == pieces(s@, either(a, b)),
{
    let mut out: Vec<Vec<char>> = Vec::new();
    let mut part: Vec<char> = Vec::new();
    let mut i: usize = 0;
    assert(s@.take(0) =~= Seq::empty());
    assert(views(out@).push(part@) =~= seq![Seq::empty()]);
    while i < s.len()
        invariant
            i <= s.len(),
            views(out@).push(part@) == pieces(s@.take(i as int), either(a, b)),
        decreases s.len() - i,
    {
        proof {
            assert(s@.take(i + 1).drop_last() =~= s@.take(i as int));
            let before = pieces(s@.take(i as int), either(a, b));
            assert(before.drop_last() =~= views(out@));
            assert(before.last() == part@);
        }
        if s[i] == a || s[i] == b {
            out.push(part);
            part = Vec::new();
        } else {
            part.push(s[i]);
        }
        i += 1;
    }
    assert(s@.take(s@.len() as int) =~= s@);
    out.push(part);
    out
}

/// Those of some texts that are not empty.
pub fn drop_empty(parts: Vec<Vec<char>>) -> (out: Vec<Vec<char>>)
    ensures
        views(out@) == filled(views(parts@)),
{
    let ghost all = views(parts@);
    let mut out: Vec<Vec<char>> = Vec::new();
    let mut i: usize = 0;
    assert(all.take(0) =~= Seq::empty());
    while i < parts.len()
        invariant
            i <= parts.len(),
            all == views(parts@),
            views(out@) == filled(all.take(i as int)),
        decreases parts.len() - i,
    {
        assert(all.take(i + 1).drop_last() =~= all.take(i as int));
        assert(all.take(i + 1).last() == parts@[i as int]@);
        if parts[i].len() > 0 {
            let part = part_of(parts[i].as_slice(), 0, parts[i].len());
            assert(part@ =~= parts@[i as int]@);
            out.push(part);
        }
        i += 1;
    }
    assert(all.take(parts.len() as int) =~= all);
    out
}

/// Some texts with their ASCII letters in small.
pub open spec fn lower_all(parts: Seq<Seq<char>>) -> Seq<Seq<char>> {
    parts.map_values(|s: Seq<char>| lower(s))
}

/// Some texts with their ASCII letters in small.
pub fn lower_each(parts: &Vec<Vec<char>>) -> (out: Vec<Vec<char>>)
    ensures
        views(out@) == lower_all(views(parts@)),
{
    let mut out: Vec<Vec<char>> = Vec::new();
    let mut i: usize = 0;
    while i < parts.len()
        invariant
            i <= parts.len(),
            out.len() == i,
            forall|k: int| 0 <= k < i ==> (#[trigger] out@[k])@ == lower(parts@[k]@),
        decreases parts.len() - i,
    {
        out.push(lower_chars(parts[i].as_slice()));
        i += 1;
    }
    assert(views(out@) =~= lower_all(views(parts@)));
    out
}

/// A text without the white space at its ends.
pub open spec fn trimmed(s: Seq<char>) -> Seq<char>
    decreases s.len(),
{
    if s.len() == 0 {
        s
    } else if is_space(s.last()) {
        trimmed(s.drop_last())
    } else if is_space(s[0]) {
        trimmed(s.drop_first())
    } else {
        s
    }
}

/// A text without the white space at its ends.
pub fn trim(s: &[char]) -> (out: Vec<char>)
    ensures
        out@ == trimmed(s@),
{
    let mut to: usize = s.len();
    assert(s@.take(s@.len() as int) =~= s@);
    while to > 0 && space(s[to - 1])
        invariant
            to <= s.len(),
            trimmed(s@) == trimmed(s@.take(to as int)),
        decreases to,
    {
        assert(s@.take(to as int).drop_last() =~= s@.take(to - 1));
        to -= 1;
    }
    let mut from: usize = 0;
    assert(s@.subrange(0, to as int) =~= s@.take(to as int));
    while from < to && space(s[from])
        invariant
            from <= to <= s.len(),
            to > 0 ==> !is_space(s@[to - 1]),
            trimmed(s@) == trimmed(s@.subrange(from as int, to as int)),
        decreases to - from,
    {
        let ghost part = s@.subrange(from as int, to as int);
        assert(part.last() == s@[to - 1]);
        assert(part.drop_first() =~= s@.subrange(from + 1, to as int));
        from += 1;
    }
    part_of(s, from, to)
}

/// A text without the white space it begins with.
pub open spec fn without_lead(s: Seq<char>) -> Seq<char>
    decreases s.len(),
{
    if s.len() > 0 && is_space(s[0]) {
        without_lead(s.drop_first())
    } else {
        s
    }
}

/// A text without the white space it begins with.
pub fn trim_start(s: &[char]) -> (out: Vec<char>)
    ensures
        out@ == without_lead(s@),
{
    let mut from: usize = 0;
    assert(s@.skip(0) =~= s@);
    while from < s.len() && space(s[from])
        invariant
            from <= s.len(),
            without_lead(s@) == without_lead(s@.skip(from as int)),
        decreases s.len() - from,
    {
        assert(s@.skip(from as int).drop_first() =~= s@.skip(from + 1));
        from += 1;
    }
    let out = part_of(s, from, s.len());
    assert(out@ =~= s@.skip(from as int));
    out
}

/// A text without the line breaks it begins with.
pub open spec fn without_breaks(s: Seq<char>) -> Seq<char>
    decreases s.len(),
{
    if s.len() > 0 && s[0] == '\n' {
        without_breaks(s.drop_first())
    } else {
        s
    }
}

/// A text without the line breaks it begins with.
pub fn trim_breaks(s: &[char]) -> (out: Vec<char>)
    ensures
        out@ == without_breaks(s@),
{
    let mut from: usize = 0;
    assert(s@.skip(0) =~= s@);
    while from < s.len() && s[from] == '\n'
        invariant
            from <= s.len(),
            without_breaks(s@) == without_breaks(s@.skip(from as int)),
        decreases s.len() - from,
    {
        assert(s@.skip(from as int).drop_first() =~= s@.skip(from + 1));
        from += 1;
    }
    let out = part_of(s, from, s.len());
    assert(out@ =~= s@.skip(from as int));
    out
}

/// How much of a text stands before the white space it ends in.
pub open spec fn body_len(s: Seq<char>) -> nat
    decreases s.len(),
{
    if s.len() > 0 && is_space(s.last()) {
        body_len(s.drop_last())
    } else {
        s.len()
    }
}

/// How much of a text stands before the white space it ends in.
pub fn body_length(s: &[char]) -> (out: usize)
    ensures
        out == body_len(s@),
        out <= s.len(),
{
    let mut to: usize = s.len();
    assert(s@.take(s@.len() as int) =~= s@);
    while to > 0 && space(s[to - 1])
        invariant
            to <= s.len(),
            body_len(s@) == body_len(s@.take(to as int)),
        decreases to,
    {
        assert(s@.take(to as int).drop_last() =~= s@.take(to - 1));
        to -= 1;
    }
    to
}

/// Texts with something between them.
pub open spec fn joined(texts: Seq<Seq<char>>, between: Seq<char>) -> Seq<char>
    decreases texts.len(),
{
    if texts.len() == 0 {
        Seq::empty()
    } else if texts.len() == 1 {
        texts[0]
    } else {
        joined(texts.drop_last(), between) + between + texts.last()
    }
}

/// Texts in one, with something between them.
pub fn join_texts(texts: &Vec<String>, between: &str) -> (out: String)
    ensures
        out@ == joined(views(texts@), between@),
{
    let ghost all = views(texts@);
    let mut out = String::new();
    let mut i: usize = 0;
    assert(all.take(0) =~= Seq::empty());
    assert(out@ =~= joined(all.take(0), between@));
    while i < texts.len()
        invariant
            i <= texts.len(),
            all == views(texts@),
            out@ == joined(all.take(i as int), between@),
        decreases texts.len() - i,
    {
        assert(all.take(i + 1).drop_last() =~= all.take(i as int));
        assert(all.take(i + 1).last() == texts@[i as int]@);
        assert(i == 0 ==> all.take(i + 1)[0] == texts@[0]@);
        if i > 0 {
            out.append(between);
        }
        out.append(texts[i].as_str());
        assert(out@ =~= joined(all.take(i + 1), between@));
        i += 1;
    }
    assert(all.take(texts.len() as int) =~= all);
    out
}

// ── What is left out ────────────────────────────────────────────────────────

/// Of a text whose leading line breaks are left out, a run of line breaks is
/// gone and the rest stands as it was: it begins with the first character
/// that is no line break.
pub proof fn only_line_breaks_are_left_out(s: Seq<char>) -> (n: int)
    ensures
        0 <= n <= s.len(),
        forall|i: int| 0 <= i < n ==> #[trigger] s[i] == '\n',
        n < s.len() ==> s[n] != '\n',
        without_breaks(s) == s.skip(n),
    decreases s.len(),
{
    if s.len() > 0 && s[0] == '\n' {
        let rest = s.drop_first();
        let m = only_line_breaks_are_left_out(rest);
        assert(rest.skip(m) =~= s.skip(m + 1));
        assert forall|i: int| 0 <= i < m + 1 implies #[trigger] s[i] == '\n' by {
            if i > 0 {
                assert(rest[i - 1] == s[i]);
            }
        }
        m + 1
    } else {
        assert(s.skip(0) =~= s);
        0
    }
}

/// What counts as white space: the characters that Unicode calls so, and none
/// that shows ink.
pub proof fn white_space_shows_nothing(c: char)
    ensures
        is_space(' ') && is_space('\n') && is_space('\t') && is_space('\r'),
        '!' as u32 <= c as u32 <= '~' as u32 ==> !is_space(c),
        0x2100 <= c as u32 && c as u32 != 0x3000 ==> !is_space(c),
        0xa1 <= c as u32 && (c as u32) < 0x1680 ==> !is_space(c),
{
}

/// Of a text whose leading white space is left out, a run of white space is
/// gone and the rest stands as it was.
pub proof fn only_a_lead_is_left_out(s: Seq<char>) -> (n: int)
    ensures
        0 <= n <= s.len(),
        forall|i: int| 0 <= i < n ==> is_space(#[trigger] s[i]),
        n < s.len() ==> !is_space(s[n]),
        without_lead(s) == s.skip(n),
    decreases s.len(),
{
    if s.len() > 0 && is_space(s[0]) {
        let rest = s.drop_first();
        let m = only_a_lead_is_left_out(rest);
        assert(rest.skip(m) =~= s.skip(m + 1));
        assert forall|i: int| 0 <= i < m + 1 implies is_space(#[trigger] s[i]) by {
            if i > 0 {
                assert(rest[i - 1] == s[i]);
            }
        }
        m + 1
    } else {
        assert(s.skip(0) =~= s);
        0
    }
}

/// The body of a text is all of it but the run of white space it ends in.
pub proof fn a_body_ends_where_white_space_begins(s: Seq<char>)
    ensures
        0 <= body_len(s) <= s.len(),
        forall|i: int| body_len(s) <= i < s.len() ==> is_space(#[trigger] s[i]),
        body_len(s) > 0 ==> !is_space(s[body_len(s) - 1]),
    decreases s.len(),
{
    if s.len() > 0 && is_space(s.last()) {
        let rest = s.drop_last();
        a_body_ends_where_white_space_begins(rest);
        assert forall|i: int| body_len(s) <= i < s.len() implies is_space(#[trigger] s[i]) by {
            if i < s.len() - 1 {
                assert(rest[i] == s[i]);
            }
        }
    }
}

/// A trimmed text is a stretch of the text that neither begins nor ends in
/// white space, and only white space stands around it.
#[verifier::spinoff_prover]
#[verifier::rlimit(40)]
pub proof fn only_the_ends_are_trimmed(s: Seq<char>) -> (at: (int, int))
    ensures
        0 <= at.0 <= at.1 <= s.len(),
        trimmed(s) == s.subrange(at.0, at.1),
        forall|i: int| 0 <= i < at.0 ==> is_space(#[trigger] s[i]),
        forall|i: int| at.1 <= i < s.len() ==> is_space(#[trigger] s[i]),
        at.0 < at.1 ==> !is_space(s[at.0]) && !is_space(s[at.1 - 1]),
    decreases s.len(),
{
    if s.len() == 0 {
        assert(s.subrange(0, 0) =~= s);
        (0, 0)
    } else if is_space(s.last()) {
        let rest = s.drop_last();
        let (a, b) = only_the_ends_are_trimmed(rest);
        assert(rest.subrange(a, b) =~= s.subrange(a, b));
        assert forall|i: int| 0 <= i < a implies is_space(#[trigger] s[i]) by {
            assert(rest[i] == s[i]);
        }
        assert forall|i: int| b <= i < s.len() implies is_space(#[trigger] s[i]) by {
            if i < s.len() - 1 {
                assert(rest[i] == s[i]);
            }
        }
        (a, b)
    } else if is_space(s[0]) {
        let rest = s.drop_first();
        let (a, b) = only_the_ends_are_trimmed(rest);
        assert(rest.subrange(a, b) =~= s.subrange(a + 1, b + 1));
        assert forall|i: int| 0 <= i < a + 1 implies is_space(#[trigger] s[i]) by {
            if i > 0 {
                assert(rest[i - 1] == s[i]);
            }
        }
        assert forall|i: int| b + 1 <= i < s.len() implies is_space(#[trigger] s[i]) by {
            assert(rest[i - 1] == s[i]);
        }
        (a + 1, b + 1)
    } else {
        assert(s.subrange(0, s.len() as int) =~= s);
        (0, s.len() as int)
    }
}

// ── What numbers, names and pieces are ──────────────────────────────────────

/// The number a run of decimal digits stands for.
pub open spec fn number_of(s: Seq<char>) -> int
    decreases s.len(),
{
    if s.len() == 0 {
        0
    } else {
        10 * number_of(s.drop_last()) + (s.last() as int - '0' as int)
    }
}

/// A number in decimal notation is made of digits, begins with no idle zero,
/// and stands for that number.
pub proof fn a_number_reads_back(n: nat)
    ensures
        number_of(decimal(n)) == n,
        decimal(n).len() > 0,
        forall|i: int| 0 <= i < decimal(n).len() ==> '0' <= #[trigger] decimal(n)[i] <= '9',
        n > 0 ==> decimal(n)[0] != '0',
    decreases n,
{
    let s = decimal(n);
    assert(number_of(Seq::empty()) == 0);
    if n < 10 {
        assert(s.drop_last() =~= Seq::empty());
    } else {
        a_number_reads_back(n / 10);
        assert(s.drop_last() =~= decimal(n / 10));
        assert(s[0] == decimal(n / 10)[0]);
    }
}

/// Only the 26 capital letters change when a text is put in small letters,
/// each into the letter 32 places on.
pub proof fn only_capitals_change(s: Seq<char>)
    ensures
        lower(s).len() == s.len(),
        forall|i: int|
            0 <= i < s.len() && 65 <= s[i] as u32 <= 90 ==> #[trigger] lower(s)[i] as u32 == (
            s[i] as u32) + 32,
        forall|i: int|
            0 <= i < s.len() && !(65 <= s[i] as u32 <= 90) ==> #[trigger] lower(s)[i] == s[i],
{
    assert forall|i: int| 0 <= i < s.len() && 65 <= s[i] as u32 <= 90 implies #[trigger] lower(
        s,
    )[i] as u32 == (s[i] as u32) + 32 by {
        assert(lower(s)[i] == small(s[i]));
    }
}

/// A name holds ASCII letters, digits, `-`, `_` and `.`, and nothing that
/// separates the parts of a reference.
pub proof fn what_a_name_holds(c: char)
    ensures
        is_name_char(c) <==> ('a' <= c <= 'z' || 'A' <= c <= 'Z' || '0' <= c <= '9' || c == '-' || c
            == '_' || c == '.'),
        is_digit(c) <==> '0' <= c <= '9',
{
}

/// Texts are ordered by the first character they differ in, and a text comes
/// before any that continues it.
pub proof fn the_first_difference_decides(lead: Seq<char>, a: Seq<char>, b: Seq<char>)
    ensures
        text_le(lead, lead + b),
        b.len() > 0 ==> !text_le(lead + b, lead),
        a.len() > 0 && b.len() > 0 && a[0] < b[0] ==> text_le(lead + a, lead + b) && !text_le(
            lead + b,
            lead + a,
        ),
    decreases lead.len(),
{
    if lead.len() == 0 {
        assert(lead + a =~= a);
        assert(lead + b =~= b);
    } else {
        the_first_difference_decides(lead.drop_first(), a, b);
        assert((lead + a).drop_first() =~= lead.drop_first() + a);
        assert((lead + b).drop_first() =~= lead.drop_first() + b);
    }
}

/// What a text is cut into at a character: the part before the first one, and
/// the part after it. One without it is not cut.
pub proof fn a_cut_is_made_at_the_first(s: Seq<char>, c: char)
    ensures
        match cut(s, c) {
            Some((before, after)) => s == before + seq![c] + after && !before.contains(c),
            None => !s.contains(c),
        },
{
    first_at_is_first(s, c);
    if let Some((before, after)) = cut(s, c) {
        let i = first_at(s, c)->0;
        assert(s =~= before + seq![c] + after);
        assert(before == s.take(i));
    }
}

/// What follows a prefix, put behind it, gives the text; what precedes a
/// suffix, put before it, does too.
#[verifier::spinoff_prover]
#[verifier::rlimit(40)]
pub proof fn what_is_stripped_can_be_put_back(s: Seq<char>, part: Seq<char>)
    ensures
        match after_prefix(s, part) {
            Some(rest) => s == part + rest,
            None => forall|rest: Seq<char>| #[trigger] (part + rest) != s,
        },
        match before_suffix(s, part) {
            Some(rest) => s == rest + part,
            None => forall|rest: Seq<char>| #[trigger] (rest + part) != s,
        },
{
    match after_prefix(s, part) {
        Some(rest) => {
            assert(s =~= part + rest);
        },
        None => {
            assert forall|rest: Seq<char>| #[trigger] (part + rest) != s by {
                assert((part + rest).subrange(0, part.len() as int) =~= part);
            }
        },
    }
    match before_suffix(s, part) {
        Some(rest) => {
            assert(s =~= rest + part);
        },
        None => {
            assert forall|rest: Seq<char>| #[trigger] (rest + part) != s by {
                let all = rest + part;
                assert(all.subrange(all.len() - part.len(), all.len() as int) =~= part);
            }
        },
    }
}

/// The last part of a path holds no `/`, ends the path, and begins it or
/// follows a `/`.
pub proof fn a_base_name_follows_the_last_slash(s: Seq<char>) -> (n: int)
    ensures
        0 <= n <= s.len(),
        base_name(s) == s.skip(n),
        !base_name(s).contains('/'),
        n == 0 || s[n - 1] == '/',
    decreases s.len(),
{
    if s.len() == 0 || s.last() == '/' {
        assert(s.skip(s.len() as int) =~= Seq::empty());
        s.len() as int
    } else {
        let init = s.drop_last();
        let n = a_base_name_follows_the_last_slash(init);
        assert(init.skip(n).push(s.last()) =~= s.skip(n));
        push_contains(base_name(init), s.last());
        n
    }
}

/// A path without the slashes at its end ends in none, and lost nothing
/// else.
pub proof fn only_slashes_are_trimmed(s: Seq<char>) -> (n: int)
    ensures
        0 <= n <= s.len(),
        trim_slashes(s) == s.take(n),
        n == 0 || s[n - 1] != '/',
        forall|i: int| n <= i < s.len() ==> #[trigger] s[i] == '/',
    decreases s.len(),
{
    if s.len() > 0 && s.last() == '/' {
        let init = s.drop_last();
        let n = only_slashes_are_trimmed(init);
        assert(init.take(n) =~= s.take(n));
        assert forall|i: int| n <= i < s.len() implies #[trigger] s[i] == '/' by {
            if i < init.len() {
                assert(init[i] == '/');
            }
        }
        n
    } else {
        assert(s.take(s.len() as int) =~= s);
        s.len() as int
    }
}

/// The pieces of a text hold no separator and, one after another, all the
/// rest of it; there is one more of them than there are separators.
pub proof fn pieces_hold_all_but_the_separators(s: Seq<char>, separates: spec_fn(char) -> bool)
    ensures
        forall|i: int, k: int|
            0 <= i < pieces(s, separates).len() && 0 <= k < pieces(s, separates)[i].len()
                ==> !separates(#[trigger] pieces(s, separates)[i][k]),
        joined(pieces(s, separates), Seq::empty()) == s.filter(|c: char| !separates(c)),
        pieces(s, separates).len() == 1 + s.filter(separates).len(),
    decreases s.len(),
{
    reveal(Seq::filter);
    let all = pieces(s, separates);
    if s.len() == 0 {
        assert(joined(all, Seq::empty()) =~= s.filter(|c: char| !separates(c)));
    } else {
        let init = s.drop_last();
        let before = pieces(init, separates);
        pieces_hold_all_but_the_separators(init, separates);
        pieces_exist(init, separates);
        if separates(s.last()) {
            assert(all.drop_last() =~= before);
            assert(joined(all, Seq::empty()) =~= joined(before, Seq::empty()));
        } else {
            assert(all.drop_last() =~= before.drop_last());
            assert forall|i: int, k: int| 0 <= i < all.len() && 0 <= k < all[i].len() implies !separates(
                #[trigger] all[i][k],
            ) by {
                if i < all.len() - 1 {
                    assert(all[i] == before[i]);
                } else if k < before.last().len() {
                    assert(all[i][k] == before[i][k]);
                }
            }
            assert(joined(all, Seq::empty()) =~= joined(before, Seq::empty()).push(s.last()));
        }
    }
}

/// Of some pieces those that hold something are kept, in order.
pub proof fn empty_pieces_are_left_out(parts: Seq<Seq<char>>)
    ensures
        filled(parts) == parts.filter(|part: Seq<char>| part.len() > 0),
    decreases parts.len(),
{
    reveal(Seq::filter);
    if parts.len() > 0 {
        empty_pieces_are_left_out(parts.drop_last());
    }
}

/// Texts joined: one stands for itself, and two runs of them are parted by
/// what stands between any two.
pub proof fn joining_runs(a: Seq<Seq<char>>, b: Seq<Seq<char>>, between: Seq<char>)
    ensures
        joined(Seq::empty(), between).len() == 0,
        a.len() == 1 ==> joined(a, between) == a[0],
        a.len() > 0 && b.len() > 0 ==> joined(a + b, between) == joined(a, between) + between
            + joined(b, between),
    decreases b.len(),
{
    if a.len() > 0 && b.len() > 0 {
        assert((a + b).drop_last() =~= a + b.drop_last());
        if b.len() == 1 {
            assert(a + b.drop_last() =~= a);
        } else {
            joining_runs(a, b.drop_last(), between);
            assert(joined(a + b, between) =~= joined(a, between) + between + joined(b, between));
        }
    }
}

} // verus!
