//! Texts and numbers.
use crate::text::{
    all_digits, decimal, digit_char, digits_value, is_digit, is_white, trim_end_spec,
    trim_spec, trim_start_spec, unsigned_value,
};
use crate::paths::text_key;
use crate::sorting::{is_order, lex_le, sorts};
use crate::text::{
    ends_with_spec, find_char, join_spec, lemma_find_char_at, lines_spec, replace_char_spec,
};
use vstd::prelude::*;

verus! {

proof fn lemma_digit(d: nat)
    requires
        d < 10,
    ensures
        is_digit(digit_char(d)),
        digit_char(d) as nat == 48 + d,
        digit_char(d) != '+',
{
}

proof fn lemma_decimal(n: nat)
    ensures
        decimal(n).len() > 0,
        all_digits(decimal(n)),
        digits_value(decimal(n)) == n,
    decreases n,
{
    let s = decimal(n);
    if n < 10 {
        lemma_digit(n);
        assert(s.drop_last() =~= Seq::empty());
        assert(digits_value(s.drop_last()) == 0);
    } else {
        lemma_decimal(n / 10);
        lemma_digit(n % 10);
        assert(s.drop_last() =~= decimal(n / 10));
        assert forall|i: int| 0 <= i < s.len() implies is_digit(#[trigger] s[i]) by {
            if i < s.len() - 1 {
                assert(s[i] == decimal(n / 10)[i]);
            }
        }
    }
}

/// A number that was written out is read as that number again, with or without a
/// plus sign before it.
pub proof fn numbers_are_read_as_they_are_written(n: nat)
    ensures
        unsigned_value(decimal(n)) == Some(n),
        unsigned_value(seq!['+'] + decimal(n)) == Some(n),
{
    lemma_decimal(n);
    assert(is_digit(decimal(n)[0]));
    assert((seq!['+'] + decimal(n)).skip(1) =~= decimal(n));
}

/// Only digits, with at most a plus sign before them, are a number.
pub proof fn only_digits_are_numbers(s: Seq<char>, i: int)
    requires
        unsigned_value(s) is Some,
        0 <= i < s.len(),
    ensures
        is_digit(s[i]) || (i == 0 && s[0] == '+' && s.len() > 1),
{
    let body = s.skip(1);
    if s[0] == '+' && i > 0 {
        assert(body[i - 1] == s[i]);
    }
}

/// One digit more stands behind the others; the last digit is what is left of tens.
pub proof fn one_more_digit_is_appended(n: nat, d: nat)
    requires
        n > 0,
        d < 10,
    ensures
        decimal(n * 10 + d) == decimal(n).push(('0' as u32 + d) as char),
        decimal(d) == seq![('0' as u32 + d) as char],
        decimal(n)[0] != '0',
{
    lemma_digit(d);
    assert((n * 10 + d) / 10 == n && (n * 10 + d) % 10 == d);
    assert(digit_char(d) == ('0' as u32 + d) as char);
    lemma_first_digit(n);
}

proof fn lemma_first_digit(n: nat)
    requires
        n > 0,
    ensures
        decimal(n).len() > 0,
        decimal(n)[0] != '0',
    decreases n,
{
    if n < 10 {
        lemma_digit(n);
    } else {
        lemma_first_digit(n / 10);
        assert(decimal(n)[0] == decimal(n / 10)[0]);
    }
}

// ---------------------------------------------------------------------------
// Lines and pieces
// ---------------------------------------------------------------------------

/// A line ends at a line feed, and a carriage return before that does not belong to
/// it; what follows are further lines. A last line may lack the line feed.
pub proof fn lines_end_at_line_feeds(line: Seq<char>, rest: Seq<char>)
    requires
        !line.contains('\n'),
    ensures
        line.len() == 0 || line.last() != '\r' ==> lines_spec(line + seq!['\n'] + rest) == seq![line]
            + lines_spec(rest),
        lines_spec(line + seq!['\r', '\n'] + rest) == seq![line] + lines_spec(rest),
        line.len() > 0 ==> lines_spec(line) == seq![line],
        lines_spec(Seq::<char>::empty()).len() == 0,
{
    let a = line + seq!['\n'] + rest;
    let n = line.len() as int;
    assert forall|i: int| 0 <= i < n implies a[i] != '\n' by {
        assert(line[i] == a[i]);
    }
    assert(a[n] == '\n');
    lemma_find_char_at(a, '\n', n);
    assert(a.take(n) =~= line);
    assert(a.skip(n + 1) =~= rest);
    let b = line + seq!['\r', '\n'] + rest;
    let ended = line.push('\r');
    assert forall|i: int| 0 <= i < n + 1 implies b[i] != '\n' by {
        if i < n {
            assert(line[i] == b[i]);
        }
    }
    assert(b[n + 1] == '\n');
    lemma_find_char_at(b, '\n', n + 1);
    assert(b.take(n + 1) =~= ended);
    assert(ended.drop_last() =~= line);
    assert(b.skip(n + 2) =~= rest);
    if n > 0 {
        lemma_absent(line, '\n');
    }
    lemma_absent(Seq::<char>::empty(), '\n');
}

proof fn lemma_absent(s: Seq<char>, c: char)
    requires
        !s.contains(c),
    ensures
        find_char(s, c) == s.len(),
    decreases s.len(),
{
    crate::text::lemma_find_char(s, c);
    if find_char(s, c) < s.len() {
        assert(s[find_char(s, c)] == c);
    }
}

/// Pieces are joined with the separator between neighbours, and nowhere else.
pub proof fn separators_stand_between_pieces(
    pieces: Seq<Seq<char>>,
    last: Seq<char>,
    sep: Seq<char>,
)
    ensures
        pieces.len() > 0 ==> join_spec(pieces.push(last), sep) == join_spec(pieces, sep) + sep
            + last,
        pieces.len() == 0 ==> join_spec(pieces.push(last), sep) == last,
        pieces.len() == 0 ==> join_spec(pieces, sep).len() == 0,
{
    assert(pieces.push(last).drop_last() =~= pieces);
    assert(pieces.push(last).last() == last);
}

/// Characters are replaced one by one, wherever they stand.
pub proof fn replacing_goes_character_by_character(
    a: Seq<char>,
    b: Seq<char>,
    from: char,
    to: Seq<char>,
)
    ensures
        replace_char_spec(a + b, from, to) == replace_char_spec(a, from, to) + replace_char_spec(
            b,
            from,
            to,
        ),
    decreases b.len(),
{
    if b.len() == 0 {
        assert(a + b =~= a);
        assert(replace_char_spec(a, from, to) + replace_char_spec(b, from, to)
            =~= replace_char_spec(a, from, to));
    } else {
        replacing_goes_character_by_character(a, b.drop_last(), from, to);
        assert((a + b).drop_last() =~= a + b.drop_last());
        assert(replace_char_spec(a + b, from, to) =~= replace_char_spec(a, from, to)
            + replace_char_spec(b, from, to));
    }
}

/// The character is replaced, and every other one stays.
pub proof fn only_the_character_is_replaced(c: char, from: char, to: Seq<char>)
    ensures
        replace_char_spec(seq![c], from, to) == (if c == from {
            to
        } else {
            seq![c]
        }),
{
    let s = seq![c];
    assert(s.drop_last() =~= Seq::empty());
    assert(replace_char_spec(s.drop_last(), from, to) =~= Seq::empty());
    assert(s.last() == c);
    assert(Seq::<char>::empty() + to =~= to);
    assert(Seq::<char>::empty() + seq![c] =~= seq![c]);
}

// ---------------------------------------------------------------------------
// Order
// ---------------------------------------------------------------------------

/// An order of some slots lists every one of them, and goes by the keys; of two slots
/// with equal keys the one that stood first comes first.
pub proof fn orders_list_every_slot(
    keys: Seq<Vec<u64>>,
    order: Seq<usize>,
    lo: int,
    hi: int,
    v: int,
    a: int,
    b: int,
)
    requires
        is_order(keys, order, lo, hi),
        lo <= v < hi,
        0 <= a < b < order.len(),
    ensures
        order.len() == hi - lo,
        exists|p: int| 0 <= p < order.len() && #[trigger] order[p] == v,
        order[a] != order[b],
        lex_le(keys[order[a] as int]@, keys[order[b] as int]@),
        keys[order[a] as int]@ == keys[order[b] as int]@ ==> order[a] < order[b],
{
    assert(crate::sorting::lists(order, v));
    assert(crate::sorting::precedes(keys, order[a] as int, order[b] as int));
    crate::sorting::lex_le_total(keys[order[a] as int]@, keys[order[a] as int]@);
}

/// Sorting keeps every slot, once; of two slots the one with the smaller key comes
/// first, and of two with equal keys the one that stood first.
pub proof fn sorting_keeps_every_slot(keys: Seq<Seq<u64>>, order: Seq<usize>, v: int, a: int, b: int)
    requires
        sorts(keys, order),
        0 <= v < keys.len(),
        0 <= a < b < order.len(),
    ensures
        order.len() == keys.len(),
        exists|p: int| 0 <= p < order.len() && #[trigger] order[p] == v,
        order[a] != order[b],
        lex_le(keys[order[a] as int], keys[order[b] as int]),
        keys[order[a] as int] == keys[order[b] as int] ==> order[a] < order[b],
{
    assert(crate::sorting::lists(order, v));
    crate::sorting::lex_le_total(keys[order[a] as int], keys[order[a] as int]);
    assert(lex_le(keys[order[a] as int], keys[order[b] as int]));
}

/// Whether the texts agree before the `i`-th character, where `a` ends or has the
/// smaller one.
pub open spec fn smaller_at(a: Seq<char>, b: Seq<char>, i: int) -> bool {
    &&& 0 <= i <= a.len()
    &&& i < b.len()
    &&& a.take(i) == b.take(i)
    &&& i == a.len() || (a[i] as int) < (b[i] as int)
}

/// Whether `a` comes before `b` in the order of a dictionary.
pub open spec fn comes_before(a: Seq<char>, b: Seq<char>) -> bool {
    exists|i: int| #[trigger] smaller_at(a, b, i)
}

proof fn lemma_code(c: char)
    ensures
        (c as u64 + 1) as u64 == c as int + 1,
        c as int >= 0,
{
}

/// Keys that begin with a text are ordered by the text, and where the texts are the
/// same, by what follows.
pub proof fn keys_are_ordered_by_text(a: Seq<char>, x: Seq<u64>, b: Seq<char>, y: Seq<u64>)
    requires
        lex_le(text_key(a) + x, text_key(b) + y),
    ensures
        comes_before(a, b) || (a == b && lex_le(x, y)),
    decreases a.len(),
{
    let k = text_key(a) + x;
    let l = text_key(b) + y;
    if a.len() == 0 && b.len() == 0 {
        assert(a =~= b);
        assert(k.skip(1) =~= x);
        assert(l.skip(1) =~= y);
    } else if a.len() == 0 {
        assert(a.take(0) =~= b.take(0));
        assert(smaller_at(a, b, 0));
    } else if b.len() == 0 {
        lemma_code(a[0]);
        assert(k[0] == (a[0] as u64 + 1) as u64);
        assert(l[0] == 0);
    } else {
        lemma_code(a[0]);
        lemma_code(b[0]);
        assert(k[0] == (a[0] as u64 + 1) as u64);
        assert(l[0] == (b[0] as u64 + 1) as u64);
        if a[0] == b[0] {
            let c = a.skip(1);
            let d = b.skip(1);
            assert(k.skip(1) =~= text_key(c) + x);
            assert(l.skip(1) =~= text_key(d) + y);
            keys_are_ordered_by_text(c, x, d, y);
            if comes_before(c, d) {
                let i = choose|i: int| #[trigger] smaller_at(c, d, i);
                assert(a.take(i + 1) =~= seq![a[0]] + c.take(i));
                assert(b.take(i + 1) =~= seq![b[0]] + d.take(i));
                assert(smaller_at(a, b, i + 1));
            } else {
                assert(a =~= seq![a[0]] + c);
                assert(b =~= seq![b[0]] + d);
            }
        } else {
            assert(a.take(0) =~= b.take(0));
            assert(smaller_at(a, b, 0));
        }
    }
}

// ---------------------------------------------------------------------------
// White space, endings
// ---------------------------------------------------------------------------

/// The space, the controls from tab to carriage return, and the spaces and separators
/// beyond ASCII are white space; letters, digits and punctuation are not.
pub proof fn spaces_and_line_breaks_are_white(c: char)
    ensures
        is_white(' ') && is_white('\t') && is_white('\n') && is_white('\r'),
        is_white('\u{b}') && is_white('\u{c}') && is_white('\u{85}') && is_white('\u{a0}'),
        is_white('\u{1680}') && is_white('\u{2028}') && is_white('\u{2029}'),
        is_white('\u{202f}') && is_white('\u{205f}') && is_white('\u{3000}'),
        0x2000 <= c as int <= 0x200a ==> is_white(c),
        0x21 <= c as int <= 0x7e ==> !is_white(c),
        c as int > 0x3000 ==> !is_white(c),
{
}

/// Whether the text is nothing but white space.
pub open spec fn is_blank(s: Seq<char>) -> bool {
    forall|i: int| 0 <= i < s.len() ==> is_white(#[trigger] s[i])
}

proof fn lemma_trim_start(blank: Seq<char>, s: Seq<char>)
    requires
        is_blank(blank),
        s.len() == 0 || !is_white(s[0]),
    ensures
        trim_start_spec(blank + s) == s,
    decreases blank.len(),
{
    if blank.len() == 0 {
        assert(blank + s =~= s);
    } else {
        let rest = blank.skip(1);
        assert forall|i: int| 0 <= i < rest.len() implies is_white(#[trigger] rest[i]) by {
            assert(rest[i] == blank[i + 1]);
        }
        assert((blank + s).skip(1) =~= rest + s);
        assert((blank + s)[0] == blank[0]);
        lemma_trim_start(rest, s);
    }
}

proof fn lemma_trim_end(s: Seq<char>, blank: Seq<char>)
    requires
        is_blank(blank),
        s.len() == 0 || !is_white(s.last()),
    ensures
        trim_end_spec(s + blank) == s,
    decreases blank.len(),
{
    if blank.len() == 0 {
        assert(s + blank =~= s);
    } else {
        let rest = blank.drop_last();
        assert forall|i: int| 0 <= i < rest.len() implies is_white(#[trigger] rest[i]) by {
            assert(rest[i] == blank[i]);
        }
        assert((s + blank).drop_last() =~= s + rest);
        assert((s + blank).last() == blank[blank.len() - 1]);
        lemma_trim_end(s, rest);
    }
}

/// White space around a text is left out, and nothing else.
pub proof fn trimming_leaves_the_text(before: Seq<char>, s: Seq<char>, after: Seq<char>)
    requires
        is_blank(before),
        is_blank(after),
        s.len() > 0,
        !is_white(s[0]),
        !is_white(s.last()),
    ensures
        trim_spec(before + s + after) == s,
{
    assert(before + s + after =~= before + (s + after));
    lemma_trim_start(before, s + after);
    lemma_trim_end(s, after);
}

/// Nothing is left of a text that is nothing but white space.
pub proof fn blank_texts_are_trimmed_away(blank: Seq<char>)
    requires
        is_blank(blank),
    ensures
        trim_spec(blank).len() == 0,
{
    let none = Seq::<char>::empty();
    assert(blank + none =~= blank);
    lemma_trim_start(blank, none);
}

/// A number that is written out has no white space in it.
pub proof fn numbers_have_no_white_space(n: nat)
    ensures
        decimal(n).len() > 0,
        forall|i: int| 0 <= i < decimal(n).len() ==> !is_white(#[trigger] decimal(n)[i]),
{
    lemma_decimal(n);
    assert forall|i: int| 0 <= i < decimal(n).len() implies !is_white(#[trigger] decimal(n)[i]) by {
        assert(is_digit(decimal(n)[i]));
    }
}

/// A text ends in another where that is what follows after some beginning.
pub proof fn endings_follow_a_beginning(s: Seq<char>, suffix: Seq<char>, beginning: Seq<char>)
    ensures
        ends_with_spec(beginning + suffix, suffix),
        ends_with_spec(s, suffix) ==> s == s.take(s.len() - suffix.len()) + suffix,
{
    let whole = beginning + suffix;
    assert(whole.skip(beginning.len() as int) =~= suffix);
    assert(whole.subrange(beginning.len() as int, whole.len() as int) =~= suffix);
    if ends_with_spec(s, suffix) {
        assert(s =~= s.take(s.len() - suffix.len()) + suffix);
    }
}

} // verus!
