//! Replacing, base64 and percent-encoding.
use vstd::prelude::*;
use vstd::string::*;
use vstd::utf8::*;

verus! {

proof fn replacing_goes_by_the_rest(h: Seq<u8>, n: Seq<u8>, r: Seq<u8>, i: int, j: int)
    requires
        0 <= i,
        0 <= j,
        i + j <= h.len(),
    ensures
        crate::codec::replaced(h, n, r, i + j) == crate::codec::replaced(h.skip(i), n, r, j),
        crate::codec::replacements(h, n, i + j) == crate::codec::replacements(h.skip(i), n, j),
    decreases h.len() - i - j,
{
    let t = h.skip(i);
    if i + j >= h.len() || n.len() == 0 {
        assert(h.skip(i + j) =~= t.skip(j));
    } else {
        super::text::occurring_is_standing(h, n, i + j);
        super::text::occurring_is_standing(t, n, j);
        assert(super::words::stands(h, n, i + j) == super::words::stands(t, n, j)) by {
            if super::words::stands(h, n, i + j) {
                assert forall|k: int| 0 <= k < n.len() implies t[j + k] == #[trigger] n[k] by {
                    assert(h[i + j + k] == n[k]);
                }
            }
            if super::words::stands(t, n, j) {
                assert forall|k: int| 0 <= k < n.len() implies h[i + j + k] == #[trigger] n[k] by {
                    assert(t[j + k] == n[k]);
                }
            }
        }
        if crate::text::occurs_at(h, n, i + j) {
            replacing_goes_by_the_rest(h, n, r, i, j + n.len());
        } else {
            assert(t[j] == h[i + j]);
            replacing_goes_by_the_rest(h, n, r, i, j + 1);
        }
    }
}

proof fn nothing_before(h: Seq<u8>, n: Seq<u8>, r: Seq<u8>, i: int, at: int)
    requires
        n.len() > 0,
        0 <= i <= at <= h.len(),
        forall|k: int| #[trigger] super::words::stands(h, n, k) ==> k < i || k >= at,
    ensures
        crate::codec::replaced(h, n, r, i) == h.subrange(i, at) + crate::codec::replaced(
            h,
            n,
            r,
            at,
        ),
        crate::codec::replacements(h, n, i) == crate::codec::replacements(h, n, at),
    decreases at - i,
{
    if i < at {
        super::text::occurring_is_standing(h, n, i);
        assert(!super::words::stands(h, n, i));
        nothing_before(h, n, r, i + 1, at);
        let rest = crate::codec::replaced(h, n, r, at);
        assert(seq![h[i]] + (h.subrange(i + 1, at) + rest) =~= h.subrange(i, at) + rest);
    } else {
        assert(h.subrange(i, at) + crate::codec::replaced(h, n, r, at) =~= crate::codec::replaced(
            h,
            n,
            r,
            at,
        ));
    }
}

/// What is searched for is replaced where it first stands, and what comes behind it is
/// treated in the same way.
pub proof fn the_first_place_is_replaced(h: Seq<u8>, n: Seq<u8>, r: Seq<u8>, at: int)
    requires
        n.len() > 0,
        super::words::stands(h, n, at),
        forall|k: int| #[trigger] super::words::stands(h, n, k) ==> k >= at,
    ensures
        crate::codec::replaced(h, n, r, 0) == h.take(at) + r + crate::codec::replaced(
            h.skip(at + n.len()),
            n,
            r,
            0,
        ),
        crate::codec::replacements(h, n, 0) == 1 + crate::codec::replacements(
            h.skip(at + n.len()),
            n,
            0,
        ),
{
    nothing_before(h, n, r, 0, at);
    super::text::occurring_is_standing(h, n, at);
    replacing_goes_by_the_rest(h, n, r, at + n.len(), 0);
    let rest = crate::codec::replaced(h.skip(at + n.len()), n, r, 0);
    assert(h.subrange(0, at) =~= h.take(at));
    assert(h.take(at) + (r + rest) =~= h.take(at) + r + rest);
}

/// Where what is searched for stands nowhere, or is empty, nothing changes.
pub proof fn nothing_else_is_replaced(h: Seq<u8>, n: Seq<u8>, r: Seq<u8>)
    requires
        n.len() == 0 || !super::words::is_within(h, n),
    ensures
        crate::codec::replaced(h, n, r, 0) == h,
        crate::codec::replacements(h, n, 0) == 0,
{
    assert(h.skip(0) =~= h);
    if n.len() > 0 {
        assert forall|k: int| #[trigger] super::words::stands(h, n, k) implies k < 0 || k
            >= h.len() by {
            assert(super::words::is_within(h, n));
        }
        nothing_before(h, n, r, 0, h.len() as int);
        assert(h.skip(h.len() as int) =~= Seq::<u8>::empty());
        assert(h.subrange(0, h.len() as int) + Seq::<u8>::empty() =~= h);
    }
}

/// What stands in one place only is replaced there.
pub proof fn the_only_place_is_replaced(h: Seq<u8>, n: Seq<u8>, r: Seq<u8>, at: int)
    requires
        n.len() > 0,
        super::words::stands_once(h, n, at),
    ensures
        crate::codec::replaced(h, n, r, 0) == h.take(at) + r + h.skip(at + n.len()),
        crate::codec::replacements(h, n, 0) == 1,
{
    the_first_place_is_replaced(h, n, r, at);
    let t = h.skip(at + n.len());
    assert(!super::words::is_within(t, n)) by {
        if super::words::is_within(t, n) {
            let i = choose|i: int| #[trigger] super::words::stands(t, n, i);
            assert(super::words::stands(h, n, at + n.len() + i)) by {
                assert forall|k: int| 0 <= k < n.len() implies h[at + n.len() + i + k]
                    == #[trigger] n[k] by {
                    assert(t[i + k] == n[k]);
                }
            }
        }
    }
    nothing_else_is_replaced(t, n, r);
}

/// What is searched for and stands somewhere is replaced.
pub proof fn what_stands_is_replaced(h: Seq<u8>, n: Seq<u8>, at: int)
    requires
        n.len() > 0,
        super::words::stands(h, n, at),
    ensures
        crate::codec::replacements(h, n, 0) > 0,
{
    super::text::occurring_is_standing(h, n, at);
    crate::codec::replace_all_present(h, n, at);
}

// ---- base64 ---------------------------------------------------------------------------------

/// The letters of base64 in the order of their values.
pub open spec fn alphabet() -> Seq<char> {
    "ABCDEFGHIJKLMNOPQRSTUVWXYZabcdefghijklmnopqrstuvwxyz0123456789+/"@
}

proof fn alphabet_is_that_of_base64(v: nat)
    requires
        v < 64,
    ensures
        alphabet().len() == 64,
        crate::codec::b64_char(v) == alphabet()[v as int],
        (alphabet()[v as int] as u32) < 128,
        crate::codec::b64_digit(alphabet()[v as int] as u8) == Some(v),
        !crate::text::is_space(alphabet()[v as int]),
{
    reveal_strlit("ABCDEFGHIJKLMNOPQRSTUVWXYZabcdefghijklmnopqrstuvwxyz0123456789+/");
}

/// Three bytes are four letters, two are three and `=`, one is two and `==`: six bits
/// for each letter.
pub proof fn base64_takes_six_bits_a_letter(a: u8, b: u8, c: u8)
    ensures
        ({
            let l = alphabet();
            let first = l[a as int / 4];
            &&& crate::codec::b64_text(seq![a, b, c]) == seq![
                first,
                l[(a as int % 4) * 16 + b as int / 16],
                l[(b as int % 16) * 4 + c as int / 64],
                l[c as int % 64],
            ]
            &&& crate::codec::b64_text(seq![a, b]) == seq![
                first,
                l[(a as int % 4) * 16 + b as int / 16],
                l[(b as int % 16) * 4],
                '=',
            ]
            &&& crate::codec::b64_text(seq![a]) == seq![first, l[(a as int % 4) * 16], '=', '=']
            &&& crate::codec::b64_text(Seq::empty()) == Seq::<char>::empty()
        }),
{
    reveal(crate::codec::b64_quad);
    crate::codec::sextets(a as nat, b as nat, c as nat);
    crate::codec::sextets(a as nat, b as nat, 0);
    crate::codec::sextets(a as nat, 0, 0);
    alphabet_is_that_of_base64((a / 4) as nat);
    alphabet_is_that_of_base64(((a as int % 4) * 16 + b as int / 16) as nat);
    alphabet_is_that_of_base64(((b as int % 16) * 4 + c as int / 64) as nat);
    alphabet_is_that_of_base64((c % 64) as nat);
    alphabet_is_that_of_base64(((b as int % 16) * 4) as nat);
    alphabet_is_that_of_base64(((a as int % 4) * 16) as nat);
    let l = alphabet();
    assert(crate::codec::b64_text(seq![a, b, c]) =~= seq![
        l[a as int / 4],
        l[(a as int % 4) * 16 + b as int / 16],
        l[(b as int % 16) * 4 + c as int / 64],
        l[c as int % 64],
    ]);
    assert(crate::codec::b64_text(seq![a, b]) =~= seq![
        l[a as int / 4],
        l[(a as int % 4) * 16 + b as int / 16],
        l[(b as int % 16) * 4],
        '=',
    ]);
    assert(crate::codec::b64_text(seq![a]) =~= seq![
        l[a as int / 4],
        l[(a as int % 4) * 16],
        '=',
        '=',
    ]);
}

/// Bytes are encoded three by three.
pub proof fn base64_goes_three_by_three(x: Seq<u8>, y: Seq<u8>)
    requires
        x.len() % 3 == 0,
    ensures
        crate::codec::b64_text(x + y) == crate::codec::b64_text(x) + crate::codec::b64_text(y),
    decreases x.len(),
{
    if x.len() == 0 {
        assert(x + y =~= y);
        assert(Seq::<char>::empty() + crate::codec::b64_text(y) =~= crate::codec::b64_text(y));
    } else {
        let head = x.take(3);
        let rest = x.skip(3);
        base64_goes_three_by_three(rest, y);
        assert((x + y).take(3) =~= head);
        assert((x + y).skip(3) =~= rest + y);
        let q = crate::codec::b64_quad(head);
        if x.len() == 3 {
            assert(head =~= x);
            assert(rest =~= Seq::<u8>::empty());
            assert(rest + y =~= y);
            if y.len() == 0 {
                assert(x + y =~= x);
                assert(q + crate::codec::b64_text(y) =~= q);
            }
        } else {
            assert(q + (crate::codec::b64_text(rest) + crate::codec::b64_text(y)) =~= q
                + crate::codec::b64_text(rest) + crate::codec::b64_text(y));
        }
    }
}

/// A text of ASCII without blanks around it is base64 only where it is made of letters
/// of base64 and `=`, four by four.
pub proof fn base64_has_its_letters_only(t: Seq<char>, i: int)
    requires
        0 <= i < t.len(),
        forall|k: int| 0 <= k < t.len() ==> super::words::is_graphic(#[trigger] t[k]),
        t.len() % 4 != 0 || (t[i] != '=' && !alphabet().contains(t[i])),
    ensures
        crate::codec::b64_decoded(t) is None,
{
    assert(is_ascii_chars(t)) by {
        assert forall|k: int| 0 <= k < t.len() implies '\0' <= #[trigger] t[k] <= '\u{7f}' by {
            assert(super::words::is_graphic(t[k]));
        }
    }
    assert forall|k: int| 0 <= k < t.len() implies !crate::text::is_space(#[trigger] t[k]) by {
        assert(super::words::is_graphic(t[k]));
    }
    crate::codec::trimmed_keeps(t);
    is_ascii_chars_encode_utf8(t);
    let b = encode_utf8(t);
    if t.len() % 4 == 0 {
        assert(super::words::is_graphic(t[i]));
        assert(crate::codec::b64_padded(b[i]) is None) by {
            if crate::codec::b64_digit(b[i]) is Some {
                let v = crate::codec::b64_digit(b[i])->0;
                alphabet_is_that_of_base64(v);
                assert(alphabet()[v as int] == t[i]);
            }
        }
        wrong_letter(b, i);
    }
}

proof fn wrong_letter(b: Seq<u8>, i: int)
    requires
        0 <= i < b.len(),
        b.len() % 4 == 0,
        crate::codec::b64_padded(b[i]) is None,
    ensures
        crate::codec::b64_bytes(b) is None,
    decreases b.len(),
{
    if i < 4 {
        reveal(crate::codec::b64_unquad);
        assert(b.take(4)[i] == b[i]);
    } else {
        assert(b.skip(4)[i - 4] == b[i]);
        wrong_letter(b.skip(4), i - 4);
    }
}

// ---- Percent-encoding ---------------------------------------------------------------------------

/// Letters, digits, `-`, `.`, `_` and `~` stay; every other byte is `%` and two
/// hexadecimal digits in uppercase; byte by byte.
pub proof fn percent_encoding_spares_the_unreserved(x: Seq<u8>, b: u8)
    ensures
        crate::codec::percent_text(Seq::empty()) == Seq::<char>::empty(),
        ({
            let c = b as char;
            let kept = 'a' <= c <= 'z' || 'A' <= c <= 'Z' || '0' <= c <= '9' || c == '-' || c
                == '.' || c == '_' || c == '~';
            let digits = "0123456789ABCDEF"@;
            crate::codec::percent_text(x + seq![b]) == crate::codec::percent_text(x) + (if kept {
                seq![b as char]
            } else {
                seq!['%', digits[b as int / 16], digits[b as int % 16]]
            })
        }),
{
    reveal_strlit("0123456789ABCDEF");
    let y = x + seq![b];
    assert(y.drop_last() =~= x);
    assert(y.last() == b);
}

/// A text of some texts is encoded as their encodings.
pub proof fn utf8_goes_piece_by_piece(a: Seq<char>, b: Seq<char>)
    ensures
        encode_utf8(a + b) == encode_utf8(a) + encode_utf8(b),
    decreases a.len(),
{
    if a.len() == 0 {
        assert(a + b =~= b);
        assert(encode_utf8(a) + encode_utf8(b) =~= encode_utf8(b));
    } else {
        utf8_goes_piece_by_piece(a.drop_first(), b);
        assert((a + b).drop_first() =~= a.drop_first() + b);
        let h = encode_scalar(a[0] as u32);
        assert(h + (encode_utf8(a.drop_first()) + encode_utf8(b)) =~= h + encode_utf8(
            a.drop_first(),
        ) + encode_utf8(b));
    }
}

/// The text of bytes that are UTF-8 is that text.
pub proof fn text_of_utf8(t: Seq<char>)
    ensures
        crate::text::bytes_text(encode_utf8(t)) == t,
{
    encode_utf8_valid_utf8(t);
    encode_utf8_decode_utf8(t);
}

/// Blanks around base64 are of no account.
pub proof fn base64_may_stand_between_blanks(x: Seq<char>, d: Seq<u8>, y: Seq<char>)
    requires
        super::words::all_blank(x),
        super::words::all_blank(y),
    ensures
        crate::codec::b64_decoded(x + crate::codec::b64_text(d) + y) == Some(d),
{
    let t = crate::codec::b64_text(d);
    crate::codec::base64_round_trip(d);
    letters_are_graphic(d);
    super::text::blanks_are_trimmed(x, t, y);
    let e = Seq::<char>::empty();
    super::text::blanks_are_trimmed(e, t, e);
    assert(e + t + e =~= t);
}

proof fn letters_are_graphic(d: Seq<u8>)
    ensures
        forall|i: int|
            0 <= i < crate::codec::b64_text(d).len() ==> super::words::is_graphic(
                #[trigger] crate::codec::b64_text(d)[i],
            ),
    decreases d.len(),
{
    reveal(crate::codec::b64_quad);
    let t = crate::codec::b64_text(d);
    if d.len() > 3 {
        letters_are_graphic(d.skip(3));
        let q = crate::codec::b64_quad(d.take(3));
        assert forall|i: int| 0 <= i < t.len() implies super::words::is_graphic(
            #[trigger] crate::codec::b64_text(d)[i],
        ) by {
            if i < 4 {
                assert(t[i] == q[i]);
                assert(i == 0 || i == 1 || i == 2 || i == 3);
            } else {
                assert(t[i] == crate::codec::b64_text(d.skip(3))[i - 4]);
            }
        }
    } else if d.len() > 0 {
        assert forall|i: int| 0 <= i < t.len() implies super::words::is_graphic(
            #[trigger] crate::codec::b64_text(d)[i],
        ) by {
            assert(i == 0 || i == 1 || i == 2 || i == 3);
        }
    }
}

proof fn letters_are_digits(v: nat)
    requires
        v < 64,
    ensures
        crate::codec::b64_digit(alphabet()[v as int] as u8) == Some(v),
        super::words::is_graphic(alphabet()[v as int]),
        alphabet()[v as int] != '=',
{
    alphabet_is_that_of_base64(v);
}

proof fn four_letters(t: Seq<char>)
    requires
        t.len() == 4,
        forall|i: int| 0 <= i < 4 ==> super::words::is_graphic(#[trigger] t[i]),
    ensures
        crate::codec::b64_decoded(t) == crate::codec::b64_unquad(
            seq![t[0] as u8, t[1] as u8, t[2] as u8, t[3] as u8],
        ),
{
    let e = Seq::<char>::empty();
    super::text::blanks_are_trimmed(e, t, e);
    assert(e + t + e =~= t);
    assert(is_ascii_chars(t));
    is_ascii_chars_encode_utf8(t);
    let b = encode_utf8(t);
    let q = seq![t[0] as u8, t[1] as u8, t[2] as u8, t[3] as u8];
    assert(b =~= q);
    assert(b.take(4) =~= q);
    assert(b.skip(4).len() == 0);
    reveal_with_fuel(crate::codec::b64_bytes, 2);
    match crate::codec::b64_unquad(q) {
        Some(x) => {
            assert(x + Seq::<u8>::empty() =~= x);
        },
        None => {},
    }
}

/// Four letters are read as three bytes, six bits a letter; with one or two signs of padding at
/// the end as two bytes or one, whatever bits are left over.
pub proof fn base64_reads_six_bits_a_letter(a: nat, b: nat, c: nat, d: nat)
    requires
        a < 64,
        b < 64,
        c < 64,
        d < 64,
    ensures
        ({
            let l = alphabet();
            let first = (a * 4 + b / 16) as u8;
            let second = (b % 16 * 16 + c / 4) as u8;
            let third = (c % 4 * 64 + d) as u8;
            &&& crate::codec::b64_decoded(seq![l[a as int], l[b as int], l[c as int], l[d as int]])
                == Some(seq![first, second, third])
            &&& crate::codec::b64_decoded(seq![l[a as int], l[b as int], l[c as int], '='])
                == Some(seq![first, second])
            &&& crate::codec::b64_decoded(seq![l[a as int], l[b as int], '=', '=']) == Some(
                seq![first],
            )
            &&& crate::codec::b64_decoded(seq![l[a as int], l[b as int], '=', l[d as int]]) is None
            &&& crate::codec::b64_decoded(seq![l[a as int], '=', '=', '=']) is None
        }),
{
    let l = alphabet();
    letters_are_digits(a);
    letters_are_digits(b);
    letters_are_digits(c);
    letters_are_digits(d);
    let (la, lb, lc, ld) = (l[a as int], l[b as int], l[c as int], l[d as int]);
    four_letters(seq![la, lb, lc, ld]);
    four_letters(seq![la, lb, lc, '=']);
    four_letters(seq![la, lb, '=', '=']);
    four_letters(seq![la, lb, '=', ld]);
    four_letters(seq![la, '=', '=', '=']);
    no_padding(la as u8, lb as u8, lc as u8, ld as u8);
    padding(la as u8, lb as u8, lc as u8);
    wrong_padding(la as u8, lb as u8, ld as u8);
}

proof fn no_padding(x: u8, y: u8, z: u8, w: u8)
    requires
        x != 61 && y != 61 && z != 61 && w != 61,
        crate::codec::b64_digit(x) is Some,
        crate::codec::b64_digit(y) is Some,
        crate::codec::b64_digit(z) is Some,
        crate::codec::b64_digit(w) is Some,
    ensures
        ({
            let a = crate::codec::b64_digit(x)->0;
            let b = crate::codec::b64_digit(y)->0;
            let c = crate::codec::b64_digit(z)->0;
            let d = crate::codec::b64_digit(w)->0;
            crate::codec::b64_unquad(seq![x, y, z, w]) == Some(
                seq![
                    (a * 4 + b / 16) as u8,
                    (b % 16 * 16 + c / 4) as u8,
                    (c % 4 * 64 + d) as u8,
                ],
            )
        }),
{
    reveal(crate::codec::b64_unquad);
    let a = crate::codec::b64_digit(x)->0;
    let b = crate::codec::b64_digit(y)->0;
    let c = crate::codec::b64_digit(z)->0;
    let d = crate::codec::b64_digit(w)->0;
    bits_of_four(a, b, c, d);
    let all = seq![
        (a * 4 + b / 16) as u8,
        (b % 16 * 16 + c / 4) as u8,
        (c % 4 * 64 + d) as u8,
    ];
    assert(all.take(3) =~= all);
}

proof fn padding(x: u8, y: u8, z: u8)
    requires
        x != 61 && y != 61 && z != 61,
        crate::codec::b64_digit(x) is Some,
        crate::codec::b64_digit(y) is Some,
        crate::codec::b64_digit(z) is Some,
    ensures
        ({
            let a = crate::codec::b64_digit(x)->0;
            let b = crate::codec::b64_digit(y)->0;
            let c = crate::codec::b64_digit(z)->0;
            &&& crate::codec::b64_unquad(seq![x, y, z, 61]) == Some(
                seq![(a * 4 + b / 16) as u8, (b % 16 * 16 + c / 4) as u8],
            )
            &&& crate::codec::b64_unquad(seq![x, y, 61, 61]) == Some(seq![(a * 4 + b / 16) as u8])
        }),
{
    reveal(crate::codec::b64_unquad);
    let a = crate::codec::b64_digit(x)->0;
    let b = crate::codec::b64_digit(y)->0;
    let c = crate::codec::b64_digit(z)->0;
    bits_of_four(a, b, c, 0);
    bits_of_four(a, b, 0, 0);
    let first = (a * 4 + b / 16) as u8;
    let second = (b % 16 * 16 + c / 4) as u8;
    assert(seq![first, second, (c % 4 * 64) as u8].take(2) =~= seq![first, second]);
    assert(seq![first, (b % 16 * 16) as u8, 0u8].take(1) =~= seq![first]);
}

proof fn wrong_padding(x: u8, y: u8, w: u8)
    requires
        w != 61,
    ensures
        crate::codec::b64_unquad(seq![x, y, 61, w]) is None,
        crate::codec::b64_unquad(seq![x, 61, 61, 61]) is None,
{
    reveal(crate::codec::b64_unquad);
}

proof fn bits_of_four(a: nat, b: nat, c: nat, d: nat)
    requires
        a < 64,
        b < 64,
        c < 64,
        d < 64,
    ensures
        ({
            let n = a * 262144 + b * 4096 + c * 64 + d;
            &&& n / 65536 == a * 4 + b / 16
            &&& n / 256 % 256 == b % 16 * 16 + c / 4
            &&& n % 256 == c % 4 * 64 + d
        }),
{
    let x = a * 4 + b / 16;
    let y = b % 16 * 16 + c / 4;
    let z = c % 4 * 64 + d;
    assert(a * 262144 + b * 4096 + c * 64 + d == x * 65536 + y * 256 + z);
    crate::codec::sextets(x, y, z);
}

} // verus!
