//! Small pieces of text handling.

use vstd::prelude::*;
use vstd::string::StringExecFns;

verus! {

/// The digit of a number below ten.
pub open spec fn digit(d: int) -> Seq<char> {
    if d == 0 {
        "0"@
    } else if d == 1 {
        "1"@
    } else if d == 2 {
        "2"@
    } else if d == 3 {
        "3"@
    } else if d == 4 {
        "4"@
    } else if d == 5 {
        "5"@
    } else if d == 6 {
        "6"@
    } else if d == 7 {
        "7"@
    } else if d == 8 {
        "8"@
    } else {
        "9"@
    }
}

/// A number in decimal notation.
pub open spec fn decimal(n: nat) -> Seq<char>
    decreases n,
{
    if n < 10 {
        digit(n as int)
    } else {
        decimal(n / 10) + digit((n % 10) as int)
    }
}

fn digit_text(d: u32) -> (text: &'static str)
    requires
        d < 10,
    ensures
        text@ == digit(d as int),
{
    match d {
        0 => "0",
        1 => "1",
        2 => "2",
        3 => "3",
        4 => "4",
        5 => "5",
        6 => "6",
        7 => "7",
        8 => "8",
        _ => "9",
    }
}

pub fn decimal_text(n: u32) -> (text: String)
    ensures
        text@ == decimal(n as nat),
    decreases n,
{
    if n < 10 {
        digit_text(n).to_string()
    } else {
        let mut text = decimal_text(n / 10);
        text.append(digit_text(n % 10));
        text
    }
}

/// The characters of a text.
pub fn characters(text: &str) -> (chars: Vec<char>)
    ensures
        chars@ == text@,
{
    let mut chars: Vec<char> = Vec::new();
    for c in it: text.chars()
        invariant
            it.seq() == text@,
            chars@ == text@.take(it.index() as int),
    {
        assert(text@.take(it.index() + 1) == text@.take(it.index() as int).push(c));
        chars.push(c);
    }
    assert(text@.take(text@.len() as int) == text@);
    chars
}

/// A copy of the characters from `from` up to, not including, `to`.
pub fn copy_range(chars: &Vec<char>, from: usize, to: usize) -> (part: Vec<char>)
    requires
        from <= to <= chars@.len(),
    ensures
        part@ == chars@.subrange(from as int, to as int),
{
    let mut part: Vec<char> = Vec::new();
    for i in from..to
        invariant
            from <= to <= chars@.len(),
            part@ == chars@.subrange(from as int, i as int),
    {
        part.push(chars[i]);
        assert(chars@.subrange(from as int, i + 1) == chars@.subrange(from as int, i as int).push(
            chars@[i as int],
        ));
    }
    part
}

/// Whether a character separates words: Unicode's white space.
pub open spec fn blank(c: char) -> bool {
    let code = c as int;
    ||| 9 <= code <= 13
    ||| code == 32
    ||| code == 133
    ||| code == 160
    ||| code == 5760
    ||| 8192 <= code <= 8202
    ||| code == 8232
    ||| code == 8233
    ||| code == 8239
    ||| code == 8287
    ||| code == 12288
}

pub fn is_blank(c: char) -> (result: bool)
    ensures
        result == blank(c),
{
    let code: u32 = c as u32;
    (9 <= code && code <= 13) || code == 32 || code == 133 || code == 160 || code == 5760 || (8192
        <= code && code <= 8202) || code == 8232 || code == 8233 || code == 8239 || code == 8287
        || code == 12288
}

/// The first place from `from` on that holds no white space, or the end.
pub open spec fn word_start(s: Seq<char>, from: int) -> int
    decreases s.len() - from,
{
    if from < 0 || from >= s.len() || !blank(s[from]) {
        from
    } else {
        word_start(s, from + 1)
    }
}

/// The first place from `from` on that holds white space, or the end.
pub open spec fn word_end(s: Seq<char>, from: int) -> int
    decreases s.len() - from,
{
    if from < 0 || from >= s.len() || blank(s[from]) {
        from
    } else {
        word_end(s, from + 1)
    }
}

/// Where the next word starts and ends.
pub proof fn lemma_word_bounds(s: Seq<char>, from: int)
    requires
        from >= 0,
    ensures
        from <= word_start(s, from),
        from <= word_end(s, from),
        from <= s.len() ==> word_start(s, from) <= s.len() && word_end(s, from) <= s.len(),
        from < s.len() && !blank(s[from]) ==> from < word_end(s, from),
        word_start(s, from) < s.len() ==> !blank(s[word_start(s, from)]),
    decreases s.len() - from,
{
    if from < s.len() {
        lemma_word_bounds(s, from + 1);
    }
}

/// The words of a text from `from` on: its longest runs without white space, in order.
pub open spec fn words(s: Seq<char>, from: int) -> Seq<Seq<char>>
    decreases s.len() - from,
{
    let start = word_start(s, from);
    let end = word_end(s, start);
    if from < 0 || start >= s.len() {
        Seq::empty()
    } else {
        proof {
            lemma_word_bounds(s, from);
            lemma_word_bounds(s, start);
        }
        seq![s.subrange(start, end)] + words(s, end)
    }
}

/// The parts into which `sep` divides a text, from `from` on. There is always one.
pub open spec fn fields(s: Seq<char>, sep: char, from: int) -> Seq<Seq<char>>
    decreases s.len() - from,
{
    let end = field_end(s, sep, from);
    if from <= end < s.len() {
        seq![s.subrange(from, end)] + fields(s, sep, end + 1)
    } else {
        seq![s.subrange(from, s.len() as int)]
    }
}

/// The first place from `from` on that holds `sep`, or the end.
pub open spec fn field_end(s: Seq<char>, sep: char, from: int) -> int
    decreases s.len() - from,
{
    if from < 0 || from >= s.len() || s[from] == sep {
        from
    } else {
        field_end(s, sep, from + 1)
    }
}

/// What a list of character lists holds.
pub open spec fn parts(list: Seq<Vec<char>>) -> Seq<Seq<char>> {
    list.map_values(|part: Vec<char>| part@)
}

fn find_word_start(chars: &Vec<char>, from: usize) -> (at: usize)
    requires
        from <= chars@.len(),
    ensures
        at == word_start(chars@, from as int),
        from <= at <= chars@.len(),
{
    let mut at = from;
    while at < chars.len() && is_blank(chars[at])
        invariant
            from <= at <= chars@.len(),
            word_start(chars@, at as int) == word_start(chars@, from as int),
        decreases chars@.len() - at,
    {
        at = at + 1;
    }
    at
}

fn find_word_end(chars: &Vec<char>, from: usize) -> (at: usize)
    requires
        from <= chars@.len(),
    ensures
        at == word_end(chars@, from as int),
        from <= at <= chars@.len(),
{
    let mut at = from;
    while at < chars.len() && !is_blank(chars[at])
        invariant
            from <= at <= chars@.len(),
            word_end(chars@, at as int) == word_end(chars@, from as int),
        decreases chars@.len() - at,
    {
        at = at + 1;
    }
    at
}

fn find_field_end(chars: &Vec<char>, sep: char, from: usize) -> (at: usize)
    requires
        from <= chars@.len(),
    ensures
        at == field_end(chars@, sep, from as int),
        from <= at <= chars@.len(),
{
    let mut at = from;
    while at < chars.len() && chars[at] != sep
        invariant
            from <= at <= chars@.len(),
            field_end(chars@, sep, at as int) == field_end(chars@, sep, from as int),
        decreases chars@.len() - at,
    {
        at = at + 1;
    }
    at
}

/// The words of a text.
pub fn split_words(chars: &Vec<char>) -> (list: Vec<Vec<char>>)
    ensures
        parts(list@) == words(chars@, 0),
{
    let mut list: Vec<Vec<char>> = Vec::new();
    let mut from: usize = 0;
    loop
        invariant
            from <= chars@.len(),
            words(chars@, 0) == parts(list@) + words(chars@, from as int),
        ensures
            parts(list@) == words(chars@, 0),
        decreases chars@.len() - from,
    {
        let start = find_word_start(chars, from);
        if start >= chars.len() {
            assert(words(chars@, from as int) =~= Seq::<Seq<char>>::empty());
            break;
        }
        let end = find_word_end(chars, start);
        proof {
            lemma_word_bounds(chars@, from as int);
            lemma_word_bounds(chars@, start as int);
        }
        let ghost before = parts(list@);
        list.push(copy_range(chars, start, end));
        assert(parts(list@) =~= before + seq![chars@.subrange(start as int, end as int)]);
        assert(words(chars@, 0) =~= parts(list@) + words(chars@, end as int));
        from = end;
    }
    list
}

/// The parts into which `sep` divides a text.
pub fn split_fields(chars: &Vec<char>, sep: char) -> (list: Vec<Vec<char>>)
    ensures
        parts(list@) == fields(chars@, sep, 0),
{
    let mut list: Vec<Vec<char>> = Vec::new();
    let mut from: usize = 0;
    let mut end = find_field_end(chars, sep, 0);
    while end < chars.len()
        invariant
            from <= end <= chars@.len(),
            end == field_end(chars@, sep, from as int),
            fields(chars@, sep, 0) == parts(list@) + fields(chars@, sep, from as int),
        decreases chars@.len() - end,
    {
        let ghost before = parts(list@);
        list.push(copy_range(chars, from, end));
        assert(parts(list@) =~= before + seq![chars@.subrange(from as int, end as int)]);
        assert(fields(chars@, sep, 0) =~= parts(list@) + fields(chars@, sep, end + 1));
        from = end + 1;
        end = find_field_end(chars, sep, from);
    }
    let ghost before = parts(list@);
    list.push(copy_range(chars, from, chars.len()));
    assert(parts(list@) =~= before + seq![chars@.subrange(from as int, chars@.len() as int)]);
    list
}

/// The value of a decimal digit.
pub open spec fn digit_value(c: char) -> Option<nat> {
    if '0' <= c <= '9' {
        Some(((c as int) - ('0' as int)) as nat)
    } else {
        None
    }
}

pub fn digit_of(c: char) -> (value: Option<u32>)
    ensures
        match value {
            Some(d) => digit_value(c) == Some(d as nat) && d < 10,
            None => digit_value(c) is None,
        },
{
    if '0' <= c && c <= '9' {
        Some(c as u32 - '0' as u32)
    } else {
        None
    }
}

/// Whether two texts are the same.
pub fn same(a: &str, b: &str) -> (result: bool)
    ensures
        result == (a@ == b@),
{
    a.to_string() == b.to_string()
}

} // verus!
