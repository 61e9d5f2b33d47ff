//! Letters, pieces and numbers.
use vstd::prelude::*;

verus! {

/// Lowercase changes `A` to `Z` and nothing else; uppercase changes `a` to `z` and
/// nothing else.
pub proof fn case_is_that_of_ascii_letters(s: Seq<char>)
    ensures
        crate::text::lower(s) == super::words::small(s),
        crate::text::upper(s).len() == s.len(),
        forall|i: int|
            0 <= i < s.len() ==> {
                let u = s[i] as u32;
                #[trigger] crate::text::upper(s)[i] == (if 97 <= u && u <= 122 {
                    (u - 32) as char
                } else {
                    s[i]
                })
            },
{
    assert(crate::text::lower(s) =~= super::words::small(s));
}

/// Two texts are the same up to case where they are the same in lowercase.
pub proof fn caseless_is_equal_in_lowercase(a: Seq<char>, b: Seq<char>)
    ensures
        crate::text::same_caseless(a, b) == (super::words::small(a) == super::words::small(b)),
{
    case_is_that_of_ascii_letters(a);
    case_is_that_of_ascii_letters(b);
}

/// A text occurs in another where it stands there, item by item.
pub proof fn occurring_is_standing<T>(h: Seq<T>, n: Seq<T>, i: int)
    ensures
        crate::text::occurs_at(h, n, i) == super::words::stands(h, n, i),
{
    if crate::text::occurs_at(h, n, i) {
        assert forall|k: int| 0 <= k < n.len() implies h[i + k] == #[trigger] n[k] by {
            assert(h.subrange(i, i + n.len())[k] == n[k]);
        }
    }
    if super::words::stands(h, n, i) {
        assert(h.subrange(i, i + n.len()) =~= n);
    }
}

proof fn first_is_least(s: Seq<char>, c: char, i: int)
    requires
        0 <= i <= s.len(),
    ensures
        i <= crate::text::first_from(s, c, i) <= s.len(),
        forall|k: int| i <= k < crate::text::first_from(s, c, i) ==> #[trigger] s[k] != c,
        crate::text::first_from(s, c, i) < s.len() ==> s[crate::text::first_from(s, c, i)] == c,
    decreases s.len() - i,
{
    if i < s.len() && s[i] != c {
        first_is_least(s, c, i + 1);
    }
}

/// A text is cut at the first separator: what stands before it holds none.
pub proof fn cut_is_at_the_first(a: Seq<char>, c: char, b: Seq<char>)
    requires
        super::words::free_of(a, c),
    ensures
        crate::text::cut_first(a + seq![c] + b, c) == Some((a, b)),
        crate::text::cut_first(a, c) is None,
{
    let s = a + seq![c] + b;
    first_is_least(s, c, 0);
    first_is_least(a, c, 0);
    let i = crate::text::first_from(s, c, 0);
    assert(s[a.len() as int] == c);
    if i < a.len() {
        assert(s[i] == a[i]);
    }
    assert(i == a.len());
    assert(s.take(i) =~= a);
    assert(s.skip(i + 1) =~= b);
}

proof fn last_is_greatest(s: Seq<char>, c: char, n: int)
    requires
        0 <= n <= s.len(),
    ensures
        -1 <= crate::text::last_before(s, c, n) < n,
        forall|k: int| crate::text::last_before(s, c, n) < k < n ==> #[trigger] s[k] != c,
        crate::text::last_before(s, c, n) >= 0 ==> s[crate::text::last_before(s, c, n)] == c,
    decreases n,
{
    if n > 0 && s[n - 1] != c {
        last_is_greatest(s, c, n - 1);
    }
}

/// A text is cut at the last separator: what stands behind it holds none.
pub proof fn last_cut_is_at_the_last(a: Seq<char>, c: char, b: Seq<char>)
    requires
        super::words::free_of(b, c),
    ensures
        crate::text::cut_last(a + seq![c] + b, c) == Some((a, b)),
        crate::text::cut_last(b, c) is None,
{
    let s = a + seq![c] + b;
    last_is_greatest(s, c, s.len() as int);
    last_is_greatest(b, c, b.len() as int);
    let i = crate::text::last_before(s, c, s.len() as int);
    assert(s[a.len() as int] == c);
    if i > a.len() {
        assert(s[i] == b[i - a.len() - 1]);
    }
    assert(i == a.len());
    assert(s.take(i) =~= a);
    assert(s.skip(i + 1) =~= b);
    let j = crate::text::last_before(b, c, b.len() as int);
    if j >= 0 {
        assert(b[j] == c);
    }
}

proof fn split_prefix(s: Seq<char>, t: Seq<char>, sep: char, n: int)
    requires
        0 <= n <= s.len(),
        n <= t.len(),
        forall|i: int| 0 <= i < n ==> s[i] == t[i],
    ensures
        crate::text::split_upto(s, sep, n) == crate::text::split_upto(t, sep, n),
    decreases n,
{
    if n > 0 {
        split_prefix(s, t, sep, n - 1);
    }
}

proof fn split_tail(s: Seq<char>, sep: char, from: int, n: int)
    requires
        0 <= from <= n <= s.len(),
        forall|i: int| from <= i < n ==> s[i] != sep,
    ensures
        ({
            let p = crate::text::split_upto(s, sep, from);
            crate::text::split_upto(s, sep, n) == p.drop_last().push(
                p.last() + s.subrange(from, n),
            )
        }),
    decreases n,
{
    let p = crate::text::split_upto(s, sep, from);
    crate::text::split_upto_len(s, sep, from);
    if n == from {
        assert(p.last() + s.subrange(from, n) =~= p.last());
        assert(p.drop_last().push(p.last()) =~= p);
    } else {
        split_tail(s, sep, from, n - 1);
        let q = crate::text::split_upto(s, sep, n - 1);
        assert(q.drop_last() =~= p.drop_last());
        assert(q.last() == p.last() + s.subrange(from, n - 1));
        assert(q.last().push(s[n - 1]) =~= p.last() + s.subrange(from, n));
    }
}

/// A text without the separator is one piece; a separator and such a text behind
/// others add one piece.
pub proof fn pieces_lie_between_separators(a: Seq<char>, sep: char, b: Seq<char>)
    requires
        super::words::free_of(b, sep),
    ensures
        crate::text::split_on(b, sep) == seq![b],
        crate::text::split_on(a + seq![sep] + b, sep) == crate::text::split_on(a, sep) + seq![b],
{
    let e = Seq::<char>::empty();
    split_tail(b, sep, 0, b.len() as int);
    assert(e + b.subrange(0, b.len() as int) =~= b);
    assert(seq![e].drop_last().push(b) =~= seq![b]);
    let s = a + seq![sep] + b;
    let n = a.len() as int;
    split_prefix(a, s, sep, n);
    let p = crate::text::split_upto(s, sep, n);
    assert(s[n] == sep);
    assert(crate::text::split_upto(s, sep, n + 1) == p.push(e));
    split_tail(s, sep, n + 1, s.len() as int);
    assert(p.push(e).drop_last() =~= p);
    assert(e + s.subrange(n + 1, s.len() as int) =~= b);
    assert(p.push(b) =~= p + seq![b]);
}

/// Pieces are joined with one separator between each two.
pub proof fn joining_puts_separators_between(p: Seq<Seq<char>>, sep: char, x: Seq<char>)
    requires
        p.len() > 0,
    ensures
        crate::text::joined(seq![x], sep) == x,
        crate::text::joined(p + seq![x], sep) == crate::text::joined(p, sep) + seq![sep] + x,
{
    let q = p + seq![x];
    assert(q.drop_last() =~= p);
    assert(q.last() == x);
    assert(crate::text::joined(p, sep).push(sep) + x =~= crate::text::joined(p, sep) + seq![sep]
        + x);
}

/// Splitting what was joined of pieces without the separator gives them back.
pub proof fn joined_pieces_are_split(p: Seq<Seq<char>>, sep: char)
    requires
        p.len() > 0,
        forall|i: int| 0 <= i < p.len() ==> super::words::free_of(#[trigger] p[i], sep),
    ensures
        crate::text::split_on(crate::text::joined(p, sep), sep) == p,
    decreases p.len(),
{
    if p.len() == 1 {
        assert(super::words::free_of(p[0], sep));
        pieces_lie_between_separators(Seq::empty(), sep, p[0]);
        assert(p =~= seq![p[0]]);
    } else {
        let q = p.drop_last();
        let x = p.last();
        assert(super::words::free_of(p[p.len() - 1], sep));
        assert forall|i: int| 0 <= i < q.len() implies super::words::free_of(
            #[trigger] q[i],
            sep,
        ) by {
            assert(super::words::free_of(p[i], sep));
        }
        joined_pieces_are_split(q, sep);
        joining_puts_separators_between(q, sep, x);
        assert(q + seq![x] =~= p);
        pieces_lie_between_separators(crate::text::joined(q, sep), sep, x);
    }
}

proof fn start_of(s: Seq<char>, i: int, n: int)
    requires
        0 <= i <= n <= s.len(),
        forall|k: int| i <= k < n ==> crate::text::is_space(#[trigger] s[k]),
        n < s.len() ==> !crate::text::is_space(s[n]),
    ensures
        crate::text::text_start(s, i) == n,
    decreases n - i,
{
    if i < n {
        start_of(s, i + 1, n);
    }
}

proof fn end_of(s: Seq<char>, n: int, m: int)
    requires
        0 <= n <= m <= s.len(),
        forall|k: int| n <= k < m ==> crate::text::is_space(#[trigger] s[k]),
        n > 0 ==> !crate::text::is_space(s[n - 1]),
    ensures
        crate::text::text_end(s, m) == n,
    decreases m - n,
{
    if n < m {
        end_of(s, n, m - 1);
    }
}

/// Trimming takes the blanks off both ends of a text and nothing else.
pub proof fn blanks_are_trimmed(x: Seq<char>, t: Seq<char>, y: Seq<char>)
    requires
        super::words::all_blank(x),
        super::words::all_blank(y),
        t.len() > 0 ==> super::words::is_graphic(t[0]) && super::words::is_graphic(
            t[t.len() - 1],
        ),
    ensures
        crate::text::trimmed(x + t + y) == t,
{
    let s = x + t + y;
    assert forall|k: int| 0 <= k < x.len() implies crate::text::is_space(#[trigger] s[k]) by {
        assert(s[k] == x[k]);
    }
    assert forall|k: int|
        x.len() + t.len() <= k < s.len() implies crate::text::is_space(#[trigger] s[k]) by {
        assert(s[k] == y[k - x.len() - t.len()]);
    }
    if t.len() > 0 {
        assert(s[x.len() as int] == t[0]);
        assert(s[x.len() + t.len() - 1] == t[t.len() - 1]);
        start_of(s, 0, x.len() as int);
        end_of(s, (x.len() + t.len()) as int, s.len() as int);
        assert(s.subrange(x.len() as int, (x.len() + t.len()) as int) =~= t);
    } else {
        start_of(s, 0, s.len() as int);
        assert(crate::text::text_end(s, s.len() as int) <= s.len()) by {
            end_is_within(s, s.len() as int);
        }
        assert(t =~= Seq::empty());
    }
}

proof fn end_is_within(s: Seq<char>, m: int)
    requires
        0 <= m,
    ensures
        0 <= crate::text::text_end(s, m) <= m,
    decreases m,
{
    if m > 0 && crate::text::is_space(s[m - 1]) {
        end_is_within(s, m - 1);
    }
}

/// Every written number has digits only, and at least one.
pub proof fn written_in_digits(n: nat)
    ensures
        super::words::written(n).len() >= 1,
        forall|i: int|
            0 <= i < super::words::written(n).len() ==> '0' <= #[trigger] super::words::written(
                n,
            )[i] <= '9',
        n >= 10 ==> super::words::written(n)[0] != '0',
        n < 10 ==> super::words::written(n).len() == 1,
        10 <= n < 100 ==> super::words::written(n).len() == 2,
        100 <= n < 1000 ==> super::words::written(n).len() == 3,
        n >= 1000 ==> super::words::written(n).len() > 3,
    decreases n,
{
    if n >= 10 {
        written_in_digits(n / 10);
        let w = super::words::written(n / 10);
        assert forall|i: int| 0 <= i < super::words::written(n).len() implies '0'
            <= #[trigger] super::words::written(n)[i] <= '9' by {
            if i < w.len() {
                assert(super::words::written(n)[i] == w[i]);
            }
        }
        assert(super::words::written(n)[0] == w[0]);
        if n < 100 {
            assert(w[0] == (48 + n / 10) as char);
        }
    }
}

proof fn value_of_written(n: nat)
    ensures
        crate::text::digits_value(super::words::written(n)) == n,
    decreases n,
{
    reveal_with_fuel(crate::text::digits_value, 2);
    let w = super::words::written(n);
    if n < 10 {
        assert(w.drop_last() =~= Seq::<char>::empty());
    } else {
        value_of_written(n / 10);
        assert(w.drop_last() =~= super::words::written(n / 10));
    }
}

/// Numbers are written in decimal and read back, up to the bound that is asked for.
pub proof fn numbers_are_decimal(n: nat, max: nat)
    ensures
        crate::text::decimal_text(n) == super::words::written(n),
        crate::text::decimal(super::words::written(n), max) == (if n <= max {
            Some(n)
        } else {
            None
        }),
    decreases n,
{
    written_in_digits(n);
    value_of_written(n);
    if n >= 10 {
        numbers_are_decimal(n / 10, max);
        let d = (48 + n % 10) as char;
        assert(super::words::written(n / 10).push(d) =~= super::words::written(n / 10) + seq![d]);
    } else {
        assert(crate::text::decimal_text(n) =~= super::words::written(n));
    }
}

/// A text with anything but digits in it, behind one sign at most, is no number.
pub proof fn numbers_are_digits(s: Seq<char>, max: nat, i: int)
    requires
        0 <= i < s.len(),
        !('0' <= s[i] <= '9'),
        i > 0 || s[0] != '+',
    ensures
        crate::text::decimal(s, max) is None,
        crate::text::decimal(Seq::empty(), max) is None,
{
    if s[0] == '+' {
        assert(s.skip(1)[i - 1] == s[i]);
    }
}

/// White space is what Unicode calls that: the tab and the ends of lines, and the spaces of all
/// widths.
pub proof fn white_space_is_that_of_unicode(c: char)
    ensures
        crate::text::is_space(c) <==> {
            ||| c == ' ' || c == '\t' || c == '\n' || c == '\r'
            ||| c == '\u{b}' || c == '\u{c}' || c == '\u{85}' || c == '\u{a0}'
            ||| c == '\u{1680}' || c == '\u{2028}' || c == '\u{2029}' || c == '\u{202f}'
            ||| c == '\u{205f}' || c == '\u{3000}'
            ||| '\u{2000}' <= c <= '\u{200a}'
        },
{
}

/// All white space around a text is trimmed, and nothing of the text.
pub proof fn white_space_is_trimmed(x: Seq<char>, t: Seq<char>, y: Seq<char>)
    requires
        forall|i: int| 0 <= i < x.len() ==> crate::text::is_space(#[trigger] x[i]),
        forall|i: int| 0 <= i < y.len() ==> crate::text::is_space(#[trigger] y[i]),
        t.len() > 0,
        !crate::text::is_space(t[0]),
        !crate::text::is_space(t[t.len() - 1]),
    ensures
        crate::text::trimmed(x + t + y) == t,
{
    let s = x + t + y;
    assert forall|k: int| 0 <= k < x.len() implies crate::text::is_space(#[trigger] s[k]) by {
        assert(s[k] == x[k]);
    }
    assert forall|k: int|
        x.len() + t.len() <= k < s.len() implies crate::text::is_space(#[trigger] s[k]) by {
        assert(s[k] == y[k - x.len() - t.len()]);
    }
    assert(s[x.len() as int] == t[0]);
    assert(s[x.len() + t.len() - 1] == t[t.len() - 1]);
    start_of(s, 0, x.len() as int);
    end_of(s, (x.len() + t.len()) as int, s.len() as int);
    assert(s.subrange(x.len() as int, (x.len() + t.len()) as int) =~= t);
}

} // verus!
