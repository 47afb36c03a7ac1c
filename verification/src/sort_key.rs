//! The sort key of an interaction: the block height as a fixed-width,
//! zero-padded decimal, then the block id, then the transaction id, joined
//! by commas.  Keys are compared byte-wise; the comma cannot occur inside
//! ledger ids, so the composite comparison agrees with the canonical order.

use vstd::prelude::*;
use vstd::string::StrSliceExecFns;
use vstd::utf8::{encode_utf8, is_ascii_chars, is_ascii_chars_encode_utf8};
use crate::interaction::InteractionNode;
use crate::order::{key_lt, lex_lt};

verus! {

/// Powers of ten.
pub open spec fn pow10(n: nat) -> nat
    decreases n,
{
    if n == 0 {
        1
    } else {
        10 * pow10((n - 1) as nat)
    }
}

/// The decimal digit bytes of `h`, least significant last, left-padded
/// with zeros to `width` bytes.
pub open spec fn spec_padded_decimal(h: nat, width: nat) -> Seq<u8>
    decreases width,
{
    if width == 0 {
        Seq::empty()
    } else {
        spec_padded_decimal(h / 10, (width - 1) as nat).push((48 + h % 10) as u8)
    }
}

/// The sort key's bytes.  Twelve decimal digits hold any block height a
/// ledger can reach.
pub open spec fn spec_sort_key(height: nat, block_id: Seq<char>, tx_id: Seq<char>) -> Seq<u8> {
    spec_padded_decimal(height, 12) + seq![44u8] + encode_utf8(block_id) + seq![44u8]
        + encode_utf8(tx_id)
}

/// Strict lexicographic order on byte strings.
pub open spec fn bytes_lt(a: Seq<u8>, b: Seq<u8>) -> bool
    decreases a.len(),
{
    if b.len() == 0 {
        false
    } else if a.len() == 0 {
        true
    } else if a[0] != b[0] {
        a[0] < b[0]
    } else {
        bytes_lt(a.drop_first(), b.drop_first())
    }
}

proof fn lemma_padded_len(h: nat, width: nat)
    ensures
        spec_padded_decimal(h, width).len() == width,
    decreases width,
{
    if width != 0 {
        lemma_padded_len(h / 10, (width - 1) as nat);
    }
}

proof fn lemma_pow10_pos(n: nat)
    ensures
        pow10(n) >= 1,
    decreases n,
{
    if n != 0 {
        lemma_pow10_pos((n - 1) as nat);
    }
}

/// Each key digit reads off the height directly.
proof fn lemma_padded_index(h: nat, width: nat, k: int)
    requires
        0 <= k < width,
    ensures
        spec_padded_decimal(h, width)[k] == (48 + (h / pow10((width - 1 - k) as nat)) % 10) as u8,
    decreases width,
{
    lemma_padded_len(h, width);
    lemma_padded_len(h / 10, (width - 1) as nat);
    if k == width - 1 {
        assert(pow10((width - 1 - k) as nat) == 1);
        assert(h / 1 == h);
    } else {
        lemma_padded_index(h / 10, (width - 1) as nat, k);
        let d = pow10((width - 2 - k) as nat);
        lemma_pow10_pos((width - 2 - k) as nat);
        vstd::arithmetic::div_mod::lemma_div_denominator(h as int, 10, d as int);
        assert(pow10((width - 1 - k) as nat) == 10 * d);
        assert(((h as int) / 10) / (d as int) == (h as int) / ((10 * d) as int));
    }
}

/// Builds the sort key of an interaction.
pub fn get_sort_key(height: u64, block_id: &str, tx_id: &str) -> (r: Vec<u8>)
    ensures
        r@ == spec_sort_key(height as nat, block_id@, tx_id@),
{
    let ghost padded = spec_padded_decimal(height as nat, 12);
    proof {
        lemma_padded_len(height as nat, 12);
    }
    let mut key: Vec<u8> = Vec::new();
    let mut div: u64 = 100_000_000_000;
    let mut k: usize = 0;
    proof {
        assert(pow10(0) == 1);
        assert(pow10(1) == 10);
        assert(pow10(2) == 100);
        assert(pow10(3) == 1000);
        assert(pow10(4) == 10000);
        assert(pow10(5) == 100000);
        assert(pow10(6) == 1000000);
        assert(pow10(7) == 10000000);
        assert(pow10(8) == 100000000);
        assert(pow10(9) == 1000000000);
        assert(pow10(10) == 10000000000);
        assert(pow10(11) == 100_000_000_000);
        assert(key@ =~= padded.take(0));
    }
    while k < 12
        invariant
            k <= 12,
            padded == spec_padded_decimal(height as nat, 12),
            padded.len() == 12,
            key@ == padded.take(k as int),
            k < 12 ==> div as nat == pow10((11 - k) as nat),
        decreases 12 - k,
    {
        proof {
            lemma_padded_index(height as nat, 12, k as int);
            lemma_pow10_pos((11 - k) as nat);
        }
        let digit = ((height / div) % 10) as u8;
        key.push(48 + digit);
        proof {
            assert(key@ =~= padded.take(k + 1));
        }
        if k < 11 {
            proof {
                assert(pow10((11 - k) as nat) == 10 * pow10((10 - k) as nat));
                assert(div as nat / 10 == pow10((10 - k) as nat));
            }
            div = div / 10;
        }
        k = k + 1;
    }
    proof {
        assert(padded.take(12) =~= padded);
    }
    key.push(44);
    let mut bid = block_id.as_bytes_vec();
    key.append(&mut bid);
    key.push(44);
    let mut tid = tx_id.as_bytes_vec();
    key.append(&mut tid);
    proof {
        assert(key@ =~= spec_sort_key(height as nat, block_id@, tx_id@));
    }
    key
}

proof fn lemma_lex_irrefl(a: Seq<char>)
    ensures
        !lex_lt(a, a),
    decreases a.len(),
{
    if a.len() != 0 {
        lemma_lex_irrefl(a.drop_first());
    }
}

/// Appending one byte to each of two equally long strings: the longer
/// strings compare by the old strings first, then by the appended bytes.
proof fn lemma_bytes_lt_push(a: Seq<u8>, b: Seq<u8>, x: u8, y: u8)
    requires
        a.len() == b.len(),
    ensures
        bytes_lt(a.push(x), b.push(y)) == (bytes_lt(a, b) || (a == b && x < y)),
    decreases a.len(),
{
    if a.len() == 0 {
        assert(a =~= b);
        assert(a.push(x)[0] == x);
        assert(b.push(y)[0] == y);
        if x == y {
            assert(a.push(x).drop_first() =~= Seq::<u8>::empty());
            assert(b.push(y).drop_first() =~= Seq::<u8>::empty());
            assert(!bytes_lt(Seq::<u8>::empty(), Seq::<u8>::empty()));
        }
    } else {
        assert(a.push(x)[0] == a[0]);
        assert(b.push(y)[0] == b[0]);
        if a[0] != b[0] {
            assert(a != b);
        } else {
            lemma_bytes_lt_push(a.drop_first(), b.drop_first(), x, y);
            assert(a.push(x).drop_first() =~= a.drop_first().push(x));
            assert(b.push(y).drop_first() =~= b.drop_first().push(y));
            assert((a == b) == (a.drop_first() == b.drop_first())) by {
                if a.drop_first() == b.drop_first() {
                    assert forall|i: int| 0 <= i < a.len() implies a[i] == b[i] by {
                        if i > 0 {
                            assert(a.drop_first()[i - 1] == b.drop_first()[i - 1]);
                        }
                    }
                    assert(a =~= b);
                }
                if a == b {
                    assert(a.drop_first() =~= b.drop_first());
                }
            }
            assert(bytes_lt(a.push(x), b.push(y)) == bytes_lt(
                a.drop_first().push(x),
                b.drop_first().push(y),
            ));
            assert(bytes_lt(a, b) == bytes_lt(a.drop_first(), b.drop_first()));
        }
    }
}

/// Fixed-width zero-padded decimals compare exactly as the numbers do.
proof fn lemma_padded_order(h1: nat, h2: nat, width: nat)
    requires
        h1 < pow10(width),
        h2 < pow10(width),
    ensures
        bytes_lt(spec_padded_decimal(h1, width), spec_padded_decimal(h2, width)) == (h1 < h2),
        (spec_padded_decimal(h1, width) == spec_padded_decimal(h2, width)) == (h1 == h2),
    decreases width,
{
    lemma_padded_len(h1, width);
    lemma_padded_len(h2, width);
    if width == 0 {
        assert(spec_padded_decimal(h1, width) =~= spec_padded_decimal(h2, width));
    } else {
        let w1 = (width - 1) as nat;
        assert(h1 / 10 < pow10(w1) && h2 / 10 < pow10(w1)) by (nonlinear_arith)
            requires
                h1 < pow10(width),
                h2 < pow10(width),
                pow10(width) == 10 * pow10(w1),
        ;
        lemma_padded_order(h1 / 10, h2 / 10, w1);
        lemma_padded_len(h1 / 10, w1);
        lemma_padded_len(h2 / 10, w1);
        lemma_bytes_lt_push(
            spec_padded_decimal(h1 / 10, w1),
            spec_padded_decimal(h2 / 10, w1),
            (48 + h1 % 10) as u8,
            (48 + h2 % 10) as u8,
        );
        assert(h1 == 10 * (h1 / 10) + h1 % 10);
        assert(h2 == 10 * (h2 / 10) + h2 % 10);
        if h1 == h2 {
            assert(spec_padded_decimal(h1, width) =~= spec_padded_decimal(h2, width));
        }
        if spec_padded_decimal(h1, width) == spec_padded_decimal(h2, width) {
            let q1 = spec_padded_decimal(h1 / 10, w1);
            let q2 = spec_padded_decimal(h2 / 10, w1);
            assert(q1.push((48 + h1 % 10) as u8).drop_last() =~= q1);
            assert(q2.push((48 + h2 % 10) as u8).drop_last() =~= q2);
            assert(q1 == q2);
            assert(q1.push((48 + h1 % 10) as u8).last() == (48 + h1 % 10) as u8);
            assert(q2.push((48 + h2 % 10) as u8).last() == (48 + h2 % 10) as u8);
            assert((48 + h1 % 10) as u8 == (48 + h2 % 10) as u8);
            assert(h1 % 10 == h2 % 10);
            assert(h1 / 10 == h2 / 10);
            assert(h1 == h2);
        }
    }
}

/// A shared prefix cancels in byte comparison.
proof fn lemma_bytes_lt_prefix(p: Seq<u8>, a: Seq<u8>, b: Seq<u8>)
    ensures
        bytes_lt(p + a, p + b) == bytes_lt(a, b),
    decreases p.len(),
{
    if p.len() == 0 {
        assert(p + a =~= a);
        assert(p + b =~= b);
    } else {
        assert((p + a)[0] == p[0]);
        assert((p + b)[0] == p[0]);
        assert((p + a).drop_first() =~= p.drop_first() + a);
        assert((p + b).drop_first() =~= p.drop_first() + b);
        lemma_bytes_lt_prefix(p.drop_first(), a, b);
    }
}

/// Two distinct prefixes of the same length decide the comparison, whatever
/// follows them.
proof fn lemma_bytes_lt_diff_prefix(p1: Seq<u8>, p2: Seq<u8>, r1: Seq<u8>, r2: Seq<u8>)
    requires
        p1.len() == p2.len(),
        p1 != p2,
    ensures
        bytes_lt(p1 + r1, p2 + r2) == bytes_lt(p1, p2),
    decreases p1.len(),
{
    assert(p1.len() != 0) by {
        if p1.len() == 0 {
            assert(p1 =~= p2);
        }
    }
    assert((p1 + r1)[0] == p1[0]);
    assert((p2 + r2)[0] == p2[0]);
    if p1[0] == p2[0] {
        assert((p1 + r1).drop_first() =~= p1.drop_first() + r1);
        assert((p2 + r2).drop_first() =~= p2.drop_first() + r2);
        assert(p1.drop_first() != p2.drop_first()) by {
            if p1.drop_first() == p2.drop_first() {
                assert forall|i: int| 0 <= i < p1.len() implies p1[i] == p2[i] by {
                    if i > 0 {
                        assert(p1.drop_first()[i - 1] == p2.drop_first()[i - 1]);
                    }
                }
                assert(p1 =~= p2);
            }
        }
        lemma_bytes_lt_diff_prefix(p1.drop_first(), p2.drop_first(), r1, r2);
    }
}

/// The characters a ledger id may hold: printable ASCII above the comma,
/// which base64url ids always satisfy.
pub open spec fn id_chars_ok(s: Seq<char>) -> bool {
    forall|i: int| 0 <= i < s.len() ==> ',' < #[trigger] s[i] <= '\u{7f}'
}

proof fn lemma_id_chars_ascii(s: Seq<char>)
    requires
        id_chars_ok(s),
    ensures
        is_ascii_chars(s),
{
}

/// Comparing two comma-terminated id fields byte-wise is comparing the ids
/// character-wise, whatever follows the comma, for distinct ids whose
/// characters lie above the comma.
proof fn lemma_delimited_field(x: Seq<char>, y: Seq<char>, r1: Seq<u8>, r2: Seq<u8>)
    requires
        id_chars_ok(x),
        id_chars_ok(y),
        x != y,
    ensures
        bytes_lt(encode_utf8(x) + seq![44u8] + r1, encode_utf8(y) + seq![44u8] + r2) == lex_lt(
            x,
            y,
        ),
    decreases x.len(),
{
    lemma_id_chars_ascii(x);
    lemma_id_chars_ascii(y);
    is_ascii_chars_encode_utf8(x);
    is_ascii_chars_encode_utf8(y);
    let bx = encode_utf8(x) + seq![44u8] + r1;
    let by = encode_utf8(y) + seq![44u8] + r2;
    if x.len() == 0 && y.len() == 0 {
        assert(x =~= y);
    } else if x.len() == 0 {
        assert(bx[0] == 44);
        assert(by[0] == encode_utf8(y)[0]);
        assert((y[0] as u8) > 44);
        assert(bytes_lt(bx, by));
    } else if y.len() == 0 {
        assert(by[0] == 44);
        assert(bx[0] == encode_utf8(x)[0]);
        assert((x[0] as u8) > 44);
        assert(!bytes_lt(bx, by));
    } else {
        assert(bx[0] == encode_utf8(x)[0] && encode_utf8(x)[0] == x[0] as u8);
        assert(by[0] == encode_utf8(y)[0] && encode_utf8(y)[0] == y[0] as u8);
        if x[0] != y[0] {
            assert(((x[0] as u8) != (y[0] as u8)) && (((x[0] as u8) < (y[0] as u8)) == (x[0] < y[0])));
        } else {
            assert(bx.drop_first() =~= encode_utf8(x.drop_first()) + seq![44u8] + r1) by {
                is_ascii_chars_encode_utf8(x.drop_first());
                assert forall|i: int| 0 <= i < bx.len() - 1 implies bx.drop_first()[i] == (
                encode_utf8(x.drop_first()) + seq![44u8] + r1)[i] by {
                    if i < x.len() - 1 {
                        assert(bx.drop_first()[i] == encode_utf8(x)[i + 1]);
                        assert(encode_utf8(x)[i + 1] == x[i + 1] as u8);
                        assert(encode_utf8(x.drop_first())[i] == x.drop_first()[i] as u8);
                    }
                }
            }
            assert(by.drop_first() =~= encode_utf8(y.drop_first()) + seq![44u8] + r2) by {
                is_ascii_chars_encode_utf8(y.drop_first());
                assert forall|i: int| 0 <= i < by.len() - 1 implies by.drop_first()[i] == (
                encode_utf8(y.drop_first()) + seq![44u8] + r2)[i] by {
                    if i < y.len() - 1 {
                        assert(by.drop_first()[i] == encode_utf8(y)[i + 1]);
                        assert(encode_utf8(y)[i + 1] == y[i + 1] as u8);
                        assert(encode_utf8(y.drop_first())[i] == y.drop_first()[i] as u8);
                    }
                }
            }
            assert(x.drop_first() != y.drop_first()) by {
                if x.drop_first() == y.drop_first() {
                    assert forall|i: int| 0 <= i < x.len() implies x[i] == y[i] by {
                        if i > 0 {
                            assert(x.drop_first()[i - 1] == y.drop_first()[i - 1]);
                        }
                    }
                    assert(x =~= y);
                }
            }
            lemma_delimited_field(x.drop_first(), y.drop_first(), r1, r2);
        }
    }
}

/// Comparing the UTF-8 encodings of two ASCII strings byte-wise is
/// comparing the strings character-wise.
proof fn lemma_ascii_lex(a: Seq<char>, b: Seq<char>)
    requires
        is_ascii_chars(a),
        is_ascii_chars(b),
    ensures
        bytes_lt(encode_utf8(a), encode_utf8(b)) == lex_lt(a, b),
    decreases a.len(),
{
    is_ascii_chars_encode_utf8(a);
    is_ascii_chars_encode_utf8(b);
    if a.len() == 0 || b.len() == 0 {
    } else {
        assert(encode_utf8(a)[0] == a[0] as u8);
        assert(encode_utf8(b)[0] == b[0] as u8);
        if a[0] != b[0] {
            assert(((a[0] as u8) != (b[0] as u8)) && (((a[0] as u8) < (b[0] as u8)) == (a[0] < b[0])));
        } else {
            assert(encode_utf8(a).drop_first() =~= encode_utf8(a.drop_first())) by {
                is_ascii_chars_encode_utf8(a.drop_first());
                assert forall|i: int| 0 <= i < a.len() - 1 implies encode_utf8(a).drop_first()[i]
                    == encode_utf8(a.drop_first())[i] by {
                    assert(encode_utf8(a)[i + 1] == a[i + 1] as u8);
                    assert(encode_utf8(a.drop_first())[i] == a.drop_first()[i] as u8);
                }
            }
            assert(encode_utf8(b).drop_first() =~= encode_utf8(b.drop_first())) by {
                is_ascii_chars_encode_utf8(b.drop_first());
                assert forall|i: int| 0 <= i < b.len() - 1 implies encode_utf8(b).drop_first()[i]
                    == encode_utf8(b.drop_first())[i] by {
                    assert(encode_utf8(b)[i + 1] == b[i + 1] as u8);
                    assert(encode_utf8(b.drop_first())[i] == b.drop_first()[i] as u8);
                }
            }
            lemma_ascii_lex(a.drop_first(), b.drop_first());
        }
    }
}

/// Byte-wise comparison of sort keys agrees exactly with the canonical
/// order of interactions, for heights that fit the padding and ids of
/// printable ASCII above the comma — which ledger ids always are.
pub proof fn lemma_sort_key_orders(a: InteractionNode, b: InteractionNode)
    requires
        a.block.height < 1_000_000_000_000,
        b.block.height < 1_000_000_000_000,
        id_chars_ok(a.block.id@),
        id_chars_ok(b.block.id@),
        id_chars_ok(a.id@),
        id_chars_ok(b.id@),
    ensures
        bytes_lt(
            spec_sort_key(a.block.height as nat, a.block.id@, a.id@),
            spec_sort_key(b.block.height as nat, b.block.id@, b.id@),
        ) == key_lt(a, b),
{
    let h1 = a.block.height as nat;
    let h2 = b.block.height as nat;
    let p1 = spec_padded_decimal(h1, 12);
    let p2 = spec_padded_decimal(h2, 12);
    let rest1 = seq![44u8] + encode_utf8(a.block.id@) + seq![44u8] + encode_utf8(a.id@);
    let rest2 = seq![44u8] + encode_utf8(b.block.id@) + seq![44u8] + encode_utf8(b.id@);
    assert(pow10(12) == 1_000_000_000_000) by {
        assert(pow10(0) == 1);
        assert(pow10(1) == 10);
        assert(pow10(2) == 100);
        assert(pow10(3) == 1000);
        assert(pow10(4) == 10000);
        assert(pow10(5) == 100000);
        assert(pow10(6) == 1000000);
        assert(pow10(7) == 10000000);
        assert(pow10(8) == 100000000);
        assert(pow10(9) == 1000000000);
        assert(pow10(10) == 10000000000);
        assert(pow10(11) == 100_000_000_000);
        assert(pow10(12) == 1_000_000_000_000);
    }
    lemma_padded_order(h1, h2, 12);
    lemma_padded_len(h1, 12);
    lemma_padded_len(h2, 12);
    assert(spec_sort_key(h1, a.block.id@, a.id@) =~= p1 + rest1);
    assert(spec_sort_key(h2, b.block.id@, b.id@) =~= p2 + rest2);
    if h1 != h2 {
        lemma_bytes_lt_diff_prefix(p1, p2, rest1, rest2);
    } else {
        assert(p1 == p2);
        assert(p1 + rest1 =~= (p1 + seq![44u8]) + (encode_utf8(a.block.id@) + seq![44u8]
            + encode_utf8(a.id@)));
        assert(p2 + rest2 =~= (p1 + seq![44u8]) + (encode_utf8(b.block.id@) + seq![44u8]
            + encode_utf8(b.id@)));
        lemma_bytes_lt_prefix(
            p1 + seq![44u8],
            encode_utf8(a.block.id@) + seq![44u8] + encode_utf8(a.id@),
            encode_utf8(b.block.id@) + seq![44u8] + encode_utf8(b.id@),
        );
        if a.block.id@ != b.block.id@ {
            lemma_delimited_field(
                a.block.id@,
                b.block.id@,
                encode_utf8(a.id@),
                encode_utf8(b.id@),
            );
        } else {
            lemma_lex_irrefl(a.block.id@);
            assert(encode_utf8(a.block.id@) + seq![44u8] + encode_utf8(a.id@) =~= (encode_utf8(
                a.block.id@,
            ) + seq![44u8]) + encode_utf8(a.id@));
            assert(encode_utf8(b.block.id@) + seq![44u8] + encode_utf8(b.id@) =~= (encode_utf8(
                a.block.id@,
            ) + seq![44u8]) + encode_utf8(b.id@));
            lemma_bytes_lt_prefix(
                encode_utf8(a.block.id@) + seq![44u8],
                encode_utf8(a.id@),
                encode_utf8(b.id@),
            );
            lemma_id_chars_ascii(a.id@);
            lemma_id_chars_ascii(b.id@);
            lemma_ascii_lex(a.id@, b.id@);
        }
    }
}

} // verus!
