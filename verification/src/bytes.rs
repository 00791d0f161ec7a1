//! Fatos sobre a codificação UTF-8 dos textos.

use vstd::prelude::*;
use vstd::utf8::{
    encode_utf8, encode_utf8_decode_utf8, encode_utf8_valid_utf8, is_ascii_chars,
    is_ascii_chars_encode_utf8, is_char_boundary, is_char_boundary_iff_not_is_continuation_byte,
    is_char_boundary_start_end_of_seq, is_continuation_byte,
};

verus! {

/// A codificação de dois textos em sequência é a de cada um em sequência.
pub proof fn lemma_codificacao_concatenada(a: Seq<char>, b: Seq<char>)
    ensures
        encode_utf8(a + b) == encode_utf8(a) + encode_utf8(b),
    decreases a.len(),
{
    if a.len() == 0 {
        assert(a + b =~= b);
        assert(encode_utf8(a) + encode_utf8(b) =~= encode_utf8(b));
    } else {
        assert((a + b).drop_first() =~= a.drop_first() + b);
        lemma_codificacao_concatenada(a.drop_first(), b);
        assert(encode_utf8(a + b) =~= encode_utf8(a) + encode_utf8(b));
    }
}

/// Textos com a mesma codificação são iguais.
pub proof fn lemma_codificacao_injetiva(a: Seq<char>, b: Seq<char>)
    requires
        encode_utf8(a) == encode_utf8(b),
    ensures
        a == b,
{
    encode_utf8_decode_utf8(a);
    encode_utf8_decode_utf8(b);
}

/// Num texto ASCII cada caractere ocupa um byte.
pub proof fn lemma_ascii_um_byte(s: Seq<char>, k: int)
    requires
        is_ascii_chars(s),
        0 <= k <= s.len(),
    ensures
        encode_utf8(s).len() == s.len(),
        encode_utf8(s.take(k)) == encode_utf8(s).take(k),
        is_char_boundary(encode_utf8(s), k),
{
    is_ascii_chars_encode_utf8(s);
    let t = s.take(k);
    assert(is_ascii_chars(t)) by {
        assert forall|i: int| 0 <= i < t.len() implies '\0' <= #[trigger] t[i] <= '\u{7f}' by {
            assert(t[i] == s[i]);
        }
    }
    is_ascii_chars_encode_utf8(t);
    assert(encode_utf8(t) =~= encode_utf8(s).take(k)) by {
        assert forall|i: int| 0 <= i < t.len() implies encode_utf8(t)[i] == encode_utf8(s)[i] by {
            assert(t[i] == s[i]);
            assert(t[i] as u8 == encode_utf8(t)[i]);
            assert(s[i] as u8 == encode_utf8(s)[i]);
        }
    }
    encode_utf8_valid_utf8(s);
    let bytes = encode_utf8(s);
    if k == bytes.len() {
        is_char_boundary_start_end_of_seq(bytes);
    } else {
        let b = bytes[k];
        assert(s[k] as u8 == b);
        assert(b <= 0x7f);
        assert(!is_continuation_byte(b));
        is_char_boundary_iff_not_is_continuation_byte(bytes, k);
    }
}

} // verus!
