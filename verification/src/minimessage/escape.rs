//! Escapes in plain text: a backslash makes a following `<` or backslash literal; before
//! any other ASCII byte it stays.
use vstd::prelude::*;
use vstd::string::{StringExecFns, StringSliceAdditionalSpecFns};
use vstd::utf8::{encode_utf8, valid_utf8};

use crate::ascii::{BACKSLASH, LESS};
use crate::minimessage::bytes::{
    boundary, first_of, lemma_boundary_after_ascii, lemma_first_of_found, substring, text,
};

verus! {

broadcast use vstd::utf8::encode_utf8_valid_utf8;

/// The text of the bytes of `bytes` from `start` on, with escapes resolved; `None` where
/// the text would be cut inside a character (a backslash before a character that is not
/// ASCII).
pub open spec fn unescape_from(bytes: Seq<u8>, start: int) -> Option<Seq<char>>
    decreases bytes.len() - start, 1int,
{
    if start > bytes.len() || start < 0 {
        None
    } else {
        match first_of(bytes, start, bytes.len() as int, BACKSLASH, BACKSLASH) {
            None => if start < bytes.len() {
                if boundary(bytes, start) {
                    Some(text(bytes, start, bytes.len() as int))
                } else {
                    None
                }
            } else {
                Some(Seq::empty())
            },
            Some(pos) => if !boundary(bytes, start) || pos < start {
                None
            } else {
                let prefix = text(bytes, start, pos);
                let next = pos + 1;
                if next < bytes.len() {
                    let b = bytes[next];
                    let escaped = if b == LESS || b == BACKSLASH {
                        seq![b as char]
                    } else {
                        seq!['\\', b as char]
                    };
                    match unescape_from(bytes, next + 1) {
                        Some(rest) => Some(prefix + escaped + rest),
                        None => None,
                    }
                } else {
                    Some(prefix + seq!['\\'])
                }
            },
        }
    }
}

/// The text `s` with escapes resolved, or `None` where resolving them would cut a
/// character.
pub open spec fn unescape(s: Seq<char>) -> Option<Seq<char>> {
    unescape_from(encode_utf8(s), 0)
}

/// Appends a character, with `String::push`.
#[verifier::external_body]
pub(crate) fn push_char(s: &mut String, c: char)
    ensures
        final(s)@ == old(s)@.push(c),
{
    s.push(c)
}

/// Whether position `i` of the bytes starts a character or is their end.
pub fn is_boundary(bytes: &[u8], i: usize) -> (r: bool)
    requires
        i <= bytes@.len(),
    ensures
        r == boundary(bytes@, i as int),
{
    i == bytes.len() || bytes[i] < 0x80 || bytes[i] >= 0xc0
}

/// Resolves the escapes of a piece of plain text: a backslash before `<` or before a
/// backslash gives that byte; before another byte it is kept; at the end it is kept.
/// Gives `None` on the inputs that cut a character.
#[verifier::spinoff_prover]
#[verifier::rlimit(30)]
pub fn unescape_text(s: &str) -> (r: Option<String>)
    ensures
        r matches Some(t) ==> unescape(s@) == Some(t@),
        r is None ==> unescape(s@) is None,
{
    let bytes = s.as_bytes();
    let ghost b = bytes@;
    let len = bytes.len();
    let mut result = String::new();
    let mut start: usize = 0;
    proof {
        assert(b == encode_utf8(s@));
        assert(boundary(b, 0)) by {
            vstd::utf8::is_char_boundary_start_end_of_seq(b);
            crate::minimessage::bytes::lemma_boundary(b, 0);
        }
    }
    loop
        invariant
            b == bytes@,
            b == s.spec_bytes(),
            valid_utf8(b),
            len == b.len(),
            start <= len,
            unescape_from(b, 0) == (match unescape_from(b, start as int) {
                Some(rest) => Some(result@ + rest),
                None => None,
            }),
        decreases len - start,
    {
        let found = crate::minimessage::bytes::search(bytes, start, len, BACKSLASH, BACKSLASH);
        proof {
            lemma_first_of_found(b, start as int, len as int, BACKSLASH, BACKSLASH);
        }
        match found {
            None => {
                if start < len {
                    if !is_boundary(bytes, start) {
                        return None;
                    }
                    let piece = substring(s, start, len);
                    result.append(piece.as_str());
                }
                proof {
                    if start == len {
                        assert(result@ + Seq::<char>::empty() =~= result@);
                    }
                }
                return Some(result);
            },
            Some(pos) => {
                if !is_boundary(bytes, start) {
                    return None;
                }
                proof {
                    assert(b[pos as int] == BACKSLASH);
                    lemma_boundary_after_ascii(b, pos as int);
                    crate::minimessage::bytes::lemma_boundary(b, pos as int);
                }
                let prefix = substring(s, start, pos);
                let ghost before = result@;
                result.append(prefix.as_str());
                let next = pos + 1;
                if next < len {
                    let nb = bytes[next];
                    if nb == LESS || nb == BACKSLASH {
                        push_char(&mut result, nb as char);
                    } else {
                        push_char(&mut result, '\\');
                        push_char(&mut result, nb as char);
                    }
                    proof {
                        let escaped = if nb == LESS || nb == BACKSLASH {
                            seq![nb as char]
                        } else {
                            seq!['\\', nb as char]
                        };
                        assert(result@ =~= before + prefix@ + escaped);
                        match unescape_from(b, next + 1) {
                            Some(rest) => {
                                assert(before + (prefix@ + escaped + rest) =~= result@ + rest);
                            },
                            None => {},
                        }
                    }
                    start = next + 1;
                } else {
                    push_char(&mut result, '\\');
                    proof {
                        assert(before + (prefix@ + seq!['\\']) =~= result@);
                    }
                    return Some(result);
                }
            },
        }
    }
}

} // verus!
