use vstd::prelude::*;

verus! {

/// Characters that separate the fields of a record. A newline ends the
/// record instead.
pub open spec fn is_blank(c: char) -> bool {
    c == ' ' || c == '\t' || c == '\r' || c == '\x0B' || c == '\x0C'
}

pub open spec fn is_digit(c: char) -> bool {
    '0' <= c && c <= '9'
}

/// A non-empty run of decimal digits.
pub open spec fn all_digits(t: Seq<char>) -> bool {
    t.len() > 0 && forall|i: int| 0 <= i < t.len() ==> is_digit(#[trigger] t[i])
}

/// The number that a run of decimal digits denotes.
pub open spec fn digits_value(t: Seq<char>) -> nat
    decreases t.len(),
{
    if t.len() == 0 {
        0
    } else {
        digits_value(t.drop_last()) * 10 + (t.last() as nat - '0' as nat) as nat
    }
}

/// The lines of `s`: the text split at each newline (the last line is what
/// follows the last newline, possibly nothing).
pub open spec fn lines(s: Seq<char>) -> Seq<Seq<char>>
    decreases s.len(),
{
    if s.len() == 0 {
        seq![Seq::<char>::empty()]
    } else {
        let p = lines(s.drop_last());
        if s.last() == '\n' {
            p.push(Seq::<char>::empty())
        } else {
            p.update(p.len() - 1, p.last().push(s.last()))
        }
    }
}

/// The fields of a line: its maximal runs of non-blank characters, in order.
pub open spec fn tokens(s: Seq<char>) -> Seq<Seq<char>>
    decreases s.len(),
{
    if s.len() == 0 {
        Seq::empty()
    } else {
        let p = tokens(s.drop_last());
        let c = s.last();
        if is_blank(c) {
            p
        } else if s.len() >= 2 && !is_blank(s[s.len() - 2]) {
            p.update(p.len() - 1, p.last().push(c))
        } else {
            p.push(seq![c])
        }
    }
}

/// The texts that a list of character ranges cut out of `chars`.
pub open spec fn span_texts(chars: Seq<char>, spans: Seq<(usize, usize)>) -> Seq<Seq<char>> {
    spans.map_values(|p: (usize, usize)| chars.subrange(p.0 as int, p.1 as int))
}

pub proof fn lemma_lines_nonempty(s: Seq<char>)
    ensures
        lines(s).len() >= 1,
    decreases s.len(),
{
    if s.len() > 0 {
        lemma_lines_nonempty(s.drop_last());
    }
}

proof fn lemma_digits_prefix(t: Seq<char>, j: int)
    requires
        0 <= j <= t.len(),
    ensures
        digits_value(t.take(j)) <= digits_value(t),
    decreases t.len() - j,
{
    if j < t.len() {
        lemma_digits_prefix(t, j + 1);
        assert(t.take(j + 1).drop_last() =~= t.take(j));
    } else {
        assert(t.take(j) =~= t);
    }
}

/// The characters of `text`, in order.
pub fn chars_of(text: &str) -> (r: Vec<char>)
    ensures
        r@ == text@,
{
    let mut r: Vec<char> = Vec::new();
    for c in it: text.chars()
        invariant
            it.seq() == text@,
            r@ == it.seq().take(it.index() as int),
    {
        r.push(c);
    }
    r
}

pub fn is_blank_char(c: char) -> (r: bool)
    ensures
        r == is_blank(c),
{
    c == ' ' || c == '\t' || c == '\r' || c == '\x0B' || c == '\x0C'
}

/// The character ranges of the fields of `chars[start..end]`.
pub fn tokenize(chars: &Vec<char>, start: usize, end: usize) -> (r: Vec<(usize, usize)>)
    requires
        start <= end <= chars@.len(),
    ensures
        span_texts(chars@, r@) == tokens(chars@.subrange(start as int, end as int)),
        forall|k: int| 0 <= k < r@.len() ==> start <= (#[trigger] r@[k]).0 <= r@[k].1 <= end,
{
    let mut r: Vec<(usize, usize)> = Vec::new();
    let mut in_token = false;
    let mut i = start;
    assert(chars@.subrange(start as int, start as int) =~= Seq::<char>::empty());
    while i < end
        invariant
            start <= i <= end <= chars@.len(),
            span_texts(chars@, r@) == tokens(chars@.subrange(start as int, i as int)),
            forall|k: int| 0 <= k < r@.len() ==> start <= (#[trigger] r@[k]).0 <= r@[k].1 <= i,
            in_token <==> (i > start && !is_blank(chars@[i - 1])),
            in_token ==> r@.len() > 0 && r@.last().1 == i,
        decreases end - i,
    {
        let c = chars[i];
        let ghost prev = chars@.subrange(start as int, i as int);
        let ghost next = chars@.subrange(start as int, i + 1);
        assert(next.drop_last() =~= prev);
        assert(next.last() == c);
        if is_blank_char(c) {
            in_token = false;
        } else if in_token {
            let last = r.pop().unwrap();
            r.push((last.0, i + 1));
            proof {
                assert(next[next.len() - 2] == chars@[i - 1]);
                assert(chars@.subrange(last.0 as int, i + 1) =~= chars@.subrange(
                    last.0 as int,
                    i as int,
                ).push(c));
                assert(span_texts(chars@, r@) =~= tokens(prev).update(
                    tokens(prev).len() - 1,
                    tokens(prev).last().push(c),
                ));
            }
            in_token = true;
        } else {
            r.push((i, i + 1));
            proof {
                if i > start {
                    assert(next[next.len() - 2] == chars@[i - 1]);
                }
                assert(chars@.subrange(i as int, i + 1) =~= seq![c]);
                assert(span_texts(chars@, r@) =~= tokens(prev).push(seq![c]));
            }
            in_token = true;
        }
        i += 1;
    }
    r
}

pub fn is_digit_char(c: char) -> (r: bool)
    ensures
        r == is_digit(c),
{
    '0' <= c && c <= '9'
}

/// Whether `chars[start..end]` is a non-empty run of decimal digits.
pub fn span_all_digits(chars: &Vec<char>, start: usize, end: usize) -> (r: bool)
    requires
        start <= end <= chars@.len(),
    ensures
        r == all_digits(chars@.subrange(start as int, end as int)),
{
    if start == end {
        return false;
    }
    let mut i = start;
    while i < end
        invariant
            start <= i <= end <= chars@.len(),
            forall|k: int| start <= k < i ==> is_digit(#[trigger] chars@[k]),
        decreases end - i,
    {
        if !is_digit_char(chars[i]) {
            assert(!is_digit(chars@.subrange(start as int, end as int)[i - start]));
            return false;
        }
        i += 1;
    }
    assert forall|k: int| 0 <= k < end - start implies is_digit(
        #[trigger] chars@.subrange(start as int, end as int)[k],
    ) by {
        assert(chars@.subrange(start as int, end as int)[k] == chars@[start + k]);
    }
    true
}

/// The number that the digits `chars[start..end]` denote, when it fits a
/// `usize`.
pub fn span_value(chars: &Vec<char>, start: usize, end: usize) -> (r: Option<usize>)
    requires
        start <= end <= chars@.len(),
        all_digits(chars@.subrange(start as int, end as int)),
    ensures
        r == (if digits_value(chars@.subrange(start as int, end as int)) <= usize::MAX {
            Some(digits_value(chars@.subrange(start as int, end as int)) as usize)
        } else {
            None::<usize>
        }),
{
    let ghost t = chars@.subrange(start as int, end as int);
    let mut acc: usize = 0;
    let mut i = start;
    assert(t.take(0) =~= Seq::<char>::empty());
    while i < end
        invariant
            start <= i <= end <= chars@.len(),
            t == chars@.subrange(start as int, end as int),
            all_digits(t),
            acc == digits_value(t.take(i - start)),
        decreases end - i,
    {
        let c = chars[i];
        assert(t[i - start] == c);
        assert(is_digit(c));
        let d = (c as u32 - '0' as u32) as usize;
        assert(t.take(i - start + 1).drop_last() =~= t.take(i - start));
        assert(digits_value(t.take(i - start + 1)) == acc * 10 + d);
        match acc.checked_mul(10) {
            None => {
                proof {
                    lemma_digits_prefix(t, i - start + 1);
                }
                return None;
            },
            Some(m) => match m.checked_add(d) {
                None => {
                    proof {
                        lemma_digits_prefix(t, i - start + 1);
                    }
                    return None;
                },
                Some(s) => {
                    acc = s;
                },
            },
        }
        i += 1;
    }
    assert(t.take(end - start) =~= t);
    Some(acc)
}

/// The text of `text[start..end]`, counted in characters.
pub fn span_string(text: &str, start: usize, end: usize) -> (r: String)
    requires
        start <= end <= text@.len(),
    ensures
        r@ == text@.subrange(start as int, end as int),
{
    text.substring_char(start, end).to_string()
}

} // verus!
