//! Words and numbers in texts.

use vstd::prelude::*;
use vstd::string::*;

verus! {

/// A character's code, with letters of the Latin alphabet taken as lower case.
pub open spec fn lower_code(c: char) -> u32 {
    if 'A' <= c <= 'Z' {
        (c as u32 + 32) as u32
    } else {
        c as u32
    }
}

/// The text is the word, in upper or lower case.
pub open spec fn same_word(text: Seq<char>, word: Seq<char>) -> bool {
    &&& text.len() == word.len()
    &&& forall|i: int| 0 <= i < text.len() ==> lower_code(#[trigger] text[i]) == word[i] as u32
}

/// The characters of a text.
pub fn chars_of(s: &str) -> (v: Vec<char>)
    ensures
        v@ == s@,
{
    let n: usize = s.unicode_len();
    let mut v: Vec<char> = Vec::new();
    let mut i: usize = 0;
    while i < n
        invariant
            i <= n,
            n == s@.len(),
            v@ =~= s@.subrange(0, i as int),
        decreases n - i,
    {
        v.push(s.get_char(i));
        i = i + 1;
    }
    assert(s@.subrange(0, n as int) =~= s@);
    v
}

/// Whether a text is a word, in upper or lower case.
pub fn is_word(text: &str, word: &str) -> (r: bool)
    ensures
        r == same_word(text@, word@),
{
    reads_as(&chars_of(text), word)
}

/// Whether some characters are a word, in upper or lower case.
pub fn reads_as(a: &Vec<char>, word: &str) -> (r: bool)
    ensures
        r == same_word(a@, word@),
{
    let b: Vec<char> = chars_of(word);
    if a.len() != b.len() {
        return false;
    }
    let mut i: usize = 0;
    while i < a.len()
        invariant
            i <= a@.len(),
            b@ == word@,
            a@.len() == b@.len(),
            forall|j: int| 0 <= j < i ==> lower_code(#[trigger] a@[j]) == b@[j] as u32,
        decreases a@.len() - i,
    {
        let c: char = a[i];
        let d: char = b[i];
        let code: u32 = if 'A' <= c && c <= 'Z' {
            c as u32 + 32
        } else {
            c as u32
        };
        if code != d as u32 {
            assert(lower_code(a@[i as int]) != word@[i as int] as u32);
            return false;
        }
        i = i + 1;
    }
    true
}

/// Whether some characters spell a text.
pub fn spells(v: &Vec<char>, text: &str) -> (r: bool)
    ensures
        r == (v@ == text@),
{
    let w: Vec<char> = chars_of(text);
    if v.len() != w.len() {
        return false;
    }
    let mut i: usize = 0;
    while i < v.len()
        invariant
            i <= v@.len(),
            v@.len() == w@.len(),
            w@ == text@,
            forall|j: int| 0 <= j < i ==> #[trigger] v@[j] == w@[j],
        decreases v@.len() - i,
    {
        if v[i] != w[i] {
            assert(v@[i as int] != text@[i as int]);
            return false;
        }
        i = i + 1;
    }
    assert(v@ =~= text@);
    true
}

/// The text begins with the head.
pub open spec fn has_head(s: Seq<char>, head: Seq<char>) -> bool {
    s.len() >= head.len() && s.subrange(0, head.len() as int) == head
}

/// What follows a head, where the text begins with it.
pub fn after_head(v: &Vec<char>, head: &str) -> (r: Option<Vec<char>>)
    ensures
        r is Some <==> has_head(v@, head@),
        r matches Some(rest) ==> rest@ == v@.skip(head@.len() as int),
{
    let h: Vec<char> = chars_of(head);
    if v.len() < h.len() {
        return None;
    }
    let mut i: usize = 0;
    while i < h.len()
        invariant
            i <= h@.len() <= v@.len(),
            h@ == head@,
            forall|j: int| 0 <= j < i ==> #[trigger] v@[j] == h@[j],
        decreases h@.len() - i,
    {
        if v[i] != h[i] {
            assert(v@.subrange(0, head@.len() as int)[i as int] != head@[i as int]);
            return None;
        }
        i = i + 1;
    }
    assert(v@.subrange(0, head@.len() as int) =~= head@);
    let mut rest: Vec<char> = Vec::new();
    let mut j: usize = h.len();
    while j < v.len()
        invariant
            h@.len() <= j <= v@.len(),
            rest@ =~= v@.subrange(h@.len() as int, j as int),
        decreases v@.len() - j,
    {
        rest.push(v[j]);
        j = j + 1;
    }
    assert(rest@ =~= v@.skip(head@.len() as int));
    Some(rest)
}

/// A digit of the decimal system.
pub open spec fn is_digit(c: char) -> bool {
    '0' <= c <= '9'
}

/// The value of a digit.
pub open spec fn digit_value(c: char) -> int {
    c as u32 - 48
}

/// The digit for a value from 0 to 9.
pub open spec fn digit_char(d: int) -> char {
    if d == 0 {
        '0'
    } else if d == 1 {
        '1'
    } else if d == 2 {
        '2'
    } else if d == 3 {
        '3'
    } else if d == 4 {
        '4'
    } else if d == 5 {
        '5'
    } else if d == 6 {
        '6'
    } else if d == 7 {
        '7'
    } else if d == 8 {
        '8'
    } else {
        '9'
    }
}

/// A number written in the decimal system, without leading zeros.
pub open spec fn digits(n: nat) -> Seq<char>
    decreases n,
{
    if n < 10 {
        seq![digit_char(n as int)]
    } else {
        digits(n / 10).push(digit_char(n as int % 10))
    }
}

/// The number that a row of digits writes.
pub open spec fn decimal(s: Seq<char>) -> int
    decreases s.len(),
{
    if s.len() == 0 {
        0
    } else {
        decimal(s.drop_last()) * 10 + digit_value(s.last())
    }
}

/// The digits of a numeral: all of it, or what follows a plus sign at its start.
pub open spec fn numeral_digits(s: Seq<char>) -> Seq<char> {
    if s.len() > 0 && s[0] == '+' {
        s.skip(1)
    } else {
        s
    }
}

/// The index that a text writes: one or more digits, behind a plus sign or not, with a value
/// in the range of `usize`.
pub open spec fn index_in(s: Seq<char>) -> Option<usize> {
    let d = numeral_digits(s);
    if d.len() > 0 && (forall|i: int| 0 <= i < d.len() ==> is_digit(#[trigger] d[i])) && decimal(d)
        <= usize::MAX {
        Some(decimal(d) as usize)
    } else {
        None
    }
}

/// Writes one digit.
pub fn digit_text(d: usize) -> (r: &'static str)
    requires
        d < 10,
    ensures
        r@ == seq![digit_char(d as int)],
{
    proof {
        reveal_strlit("0");
        reveal_strlit("1");
        reveal_strlit("2");
        reveal_strlit("3");
        reveal_strlit("4");
        reveal_strlit("5");
        reveal_strlit("6");
        reveal_strlit("7");
        reveal_strlit("8");
        reveal_strlit("9");
    }
    let r: &'static str = match d {
        0 => "0",
        1 => "1",
        2 => "2",
        3 => "3",
        4 => "4",
        5 => "5",
        6 => "6",
        7 => "7",
        8 => "8",
        _ => "9",
    };
    assert(r@ =~= seq![digit_char(d as int)]);
    r
}

/// Writes a long number in the decimal system.
pub fn long_text(n: u128) -> (r: String)
    ensures
        r@ == digits(n as nat),
    decreases n,
{
    if n < 10 {
        digit_text(n as usize).to_string()
    } else {
        let mut s: String = long_text(n / 10);
        s.append(digit_text((n % 10) as usize));
        assert(s@ =~= digits(n as nat));
        s
    }
}

/// Writes a number in the decimal system.
pub fn decimal_text(n: usize) -> (r: String)
    ensures
        r@ == digits(n as nat),
{
    long_text(n as u128)
}

proof fn lemma_decimal_grows(d: Seq<char>, k: int)
    requires
        0 <= k <= d.len(),
        forall|i: int| 0 <= i < d.len() ==> is_digit(#[trigger] d[i]),
    ensures
        0 <= decimal(d.take(k)) <= decimal(d),
    decreases d.len(),
{
    if k == d.len() {
        assert(d.take(k) =~= d);
        if d.len() > 0 {
            lemma_decimal_grows(d.drop_last(), k - 1);
            assert(is_digit(d[d.len() - 1]));
        }
    } else {
        lemma_decimal_grows(d.drop_last(), k);
        assert(d.drop_last().take(k) =~= d.take(k));
        assert(is_digit(d[d.len() - 1]));
    }
}

/// Reads an index in the decimal system.
pub fn read_index(s: &Vec<char>) -> (r: Option<usize>)
    ensures
        r == index_in(s@),
{
    let start: usize = if s.len() > 0 && s[0] == '+' {
        1
    } else {
        0
    };
    let ghost d = numeral_digits(s@);
    assert(d =~= s@.skip(start as int));
    if s.len() == start {
        return None;
    }
    let mut acc: usize = 0;
    let mut i: usize = start;
    while i < s.len()
        invariant
            start <= i <= s@.len(),
            start <= 1,
            d == s@.skip(start as int),
            d == numeral_digits(s@),
            s@.len() > start,
            forall|j: int| 0 <= j < i - start ==> is_digit(#[trigger] d[j]),
            acc == decimal(d.take(i - start)),
        decreases s@.len() - i,
    {
        let c: char = s[i];
        assert(c == d[i - start]);
        if !('0' <= c && c <= '9') {
            return None;
        }
        let v: usize = (c as u32 - 48) as usize;
        assert(d.take(i + 1 - start).drop_last() =~= d.take(i - start));
        assert(decimal(d.take(i + 1 - start)) == acc * 10 + v);
        if acc > (usize::MAX - v) / 10 {
            proof {
                if forall|j: int| 0 <= j < d.len() ==> is_digit(#[trigger] d[j]) {
                    lemma_decimal_grows(d, i + 1 - start);
                }
                assert(acc * 10 + v > usize::MAX);
            }
            return None;
        }
        acc = acc * 10 + v;
        i = i + 1;
    }
    assert(d.take(d.len() as int) =~= d);
    Some(acc)
}

/// Reading back what was written gives the number.
pub proof fn law_index_reads_back(n: usize)
    ensures
        index_in(digits(n as nat)) == Some(n),
{
    lemma_digits(n as nat);
}

proof fn lemma_digits(n: nat)
    ensures
        digits(n).len() > 0,
        forall|i: int| 0 <= i < digits(n).len() ==> is_digit(#[trigger] digits(n)[i]),
        decimal(digits(n)) == n,
    decreases n,
{
    if n < 10 {
        assert(digits(n).drop_last() =~= Seq::<char>::empty());
        assert(decimal(Seq::<char>::empty()) == 0);
    } else {
        lemma_digits(n / 10);
        assert(digits(n).drop_last() =~= digits(n / 10));
    }
}

/// A character that counts as space at the ends of a text.
pub open spec fn is_space(c: char) -> bool {
    let n = c as u32;
    9 <= n <= 13 || n == 32 || n == 0x85 || n == 0xa0 || n == 0x1680 || 0x2000 <= n <= 0x200a || n
        == 0x2028 || n == 0x2029 || n == 0x202f || n == 0x205f || n == 0x3000
}

fn space(c: char) -> (r: bool)
    ensures
        r == is_space(c),
{
    let n: u32 = c as u32;
    (9 <= n && n <= 13) || n == 32 || n == 0x85 || n == 0xa0 || n == 0x1680 || (0x2000 <= n && n
        <= 0x200a) || n == 0x2028 || n == 0x2029 || n == 0x202f || n == 0x205f || n == 0x3000
}

/// A text without the space at its start.
pub open spec fn trimmed_left(s: Seq<char>) -> Seq<char>
    decreases s.len(),
{
    if s.len() > 0 && is_space(s[0]) {
        trimmed_left(s.skip(1))
    } else {
        s
    }
}

/// A text without the space at its end.
pub open spec fn trimmed_right(s: Seq<char>) -> Seq<char>
    decreases s.len(),
{
    if s.len() > 0 && is_space(s.last()) {
        trimmed_right(s.drop_last())
    } else {
        s
    }
}

/// A text without the space at its ends.
pub open spec fn trimmed(s: Seq<char>) -> Seq<char> {
    trimmed_right(trimmed_left(s))
}

/// Takes the space off the ends of a text.
pub fn trim(v: &Vec<char>) -> (r: Vec<char>)
    ensures
        r@ == trimmed(v@),
{
    let mut from: usize = 0;
    assert(v@.skip(0) =~= v@);
    while from < v.len() && space(v[from])
        invariant
            from <= v@.len(),
            trimmed_left(v@) == trimmed_left(v@.skip(from as int)),
        decreases v@.len() - from,
    {
        assert(v@.skip(from as int).skip(1) =~= v@.skip(from + 1));
        from = from + 1;
    }
    let ghost mid = v@.skip(from as int);
    assert(trimmed_left(v@) == mid);
    let mut to: usize = v.len();
    assert(mid =~= v@.subrange(from as int, to as int));
    while to > from && space(v[to - 1])
        invariant
            from <= to <= v@.len(),
            trimmed_right(mid) == trimmed_right(v@.subrange(from as int, to as int)),
        decreases to,
    {
        assert(v@.subrange(from as int, to as int).drop_last() =~= v@.subrange(
            from as int,
            to - 1,
        ));
        to = to - 1;
    }
    let ghost core = v@.subrange(from as int, to as int);
    assert(trimmed_right(core) == core);
    let mut r: Vec<char> = Vec::new();
    let mut i: usize = from;
    while i < to
        invariant
            from <= i <= to <= v@.len(),
            r@ =~= v@.subrange(from as int, i as int),
        decreases to - i,
    {
        r.push(v[i]);
        i = i + 1;
    }
    r
}

/// The parts of a text between the places of a mark.
pub open spec fn parts_of(s: Seq<char>, mark: char) -> Seq<Seq<char>>
    decreases s.len(),
{
    if s.len() == 0 {
        seq![Seq::<char>::empty()]
    } else {
        let before = parts_of(s.drop_last(), mark);
        if s.last() == mark {
            before.push(Seq::<char>::empty())
        } else {
            before.drop_last().push(before.last().push(s.last()))
        }
    }
}

/// Texts as sequences of characters.
pub open spec fn as_texts(v: Seq<Vec<char>>) -> Seq<Seq<char>> {
    Seq::new(v.len(), |i: int| v[i]@)
}

/// Splits a text at each place of a mark.
pub fn split(v: &Vec<char>, mark: char) -> (r: Vec<Vec<char>>)
    ensures
        as_texts(r@) == parts_of(v@, mark),
        r@.len() > 0,
{
    let mut done: Vec<Vec<char>> = Vec::new();
    let mut cur: Vec<char> = Vec::new();
    let mut i: usize = 0;
    proof {
        assert(v@.subrange(0, 0) =~= Seq::<char>::empty());
        assert(as_texts(done@).push(cur@) =~= parts_of(v@.subrange(0, 0), mark));
    }
    while i < v.len()
        invariant
            i <= v@.len(),
            as_texts(done@).push(cur@) == parts_of(v@.subrange(0, i as int), mark),
        decreases v@.len() - i,
    {
        let c: char = v[i];
        let ghost s = v@.subrange(0, i + 1);
        let ghost before = as_texts(done@).push(cur@);
        let ghost old_done = done@;
        let ghost old_cur = cur@;
        assert(s.drop_last() =~= v@.subrange(0, i as int));
        assert(s.last() == c);
        assert(before.drop_last() =~= as_texts(done@));
        assert(before.last() == cur@);
        if c == mark {
            done.push(cur);
            cur = Vec::new();
            assert(as_texts(done@) =~= before);
            assert(as_texts(done@).push(cur@) =~= parts_of(s, mark));
        } else {
            cur.push(c);
            assert(as_texts(done@).push(cur@) =~= parts_of(s, mark));
        }
        i = i + 1;
    }
    assert(v@.subrange(0, v@.len() as int) =~= v@);
    let ghost before = as_texts(done@).push(cur@);
    done.push(cur);
    assert(as_texts(done@) =~= before);
    done
}

/// The first place of a mark in a text.
pub open spec fn first_place(s: Seq<char>, mark: char) -> Option<int>
    decreases s.len(),
{
    if s.len() == 0 {
        None
    } else if s[0] == mark {
        Some(0)
    } else {
        match first_place(s.skip(1), mark) {
            Some(i) => Some(i + 1),
            None => None,
        }
    }
}

/// Finds the first place of a mark in a text.
pub fn find_mark(v: &Vec<char>, mark: char) -> (r: Option<usize>)
    ensures
        match r {
            Some(i) => first_place(v@, mark) == Some(i as int) && i < v@.len(),
            None => first_place(v@, mark) is None,
        },
{
    let mut i: usize = 0;
    assert(v@.skip(0) =~= v@);
    while i < v.len()
        invariant
            i <= v@.len(),
            match first_place(v@.skip(i as int), mark) {
                Some(k) => first_place(v@, mark) == Some(k + i),
                None => first_place(v@, mark) is None,
            },
        decreases v@.len() - i,
    {
        let ghost s = v@.skip(i as int);
        assert(s[0] == v@[i as int]);
        if v[i] == mark {
            return Some(i);
        }
        assert(s.skip(1) =~= v@.skip(i + 1));
        i = i + 1;
    }
    None
}

/// A part of a text.
pub fn slice_of(v: &Vec<char>, from: usize, to: usize) -> (r: Vec<char>)
    requires
        from <= to <= v@.len(),
    ensures
        r@ == v@.subrange(from as int, to as int),
{
    let mut r: Vec<char> = Vec::new();
    let mut i: usize = from;
    while i < to
        invariant
            from <= i <= to <= v@.len(),
            r@ =~= v@.subrange(from as int, i as int),
        decreases to - i,
    {
        r.push(v[i]);
        i = i + 1;
    }
    r
}

} // verus!
