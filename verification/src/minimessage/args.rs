//! The arguments of a tag: `<name:arg:arg...>`. An argument is either bare (up to the next
//! `:` or `>`) or quoted with `"` or `'`, in which a backslash escapes the quote or a
//! backslash.
use vstd::prelude::*;
use vstd::string::StringSliceAdditionalSpecFns;
use vstd::utf8::valid_utf8;

use crate::ascii::{BACKSLASH, COLON, DOUBLE_QUOTE, GREATER, SINGLE_QUOTE};
use crate::minimessage::bytes::{
    boundary, first_of, lemma_boundary, lemma_boundary_after_ascii, lemma_first_of_found, search,
    substring, text,
};
use crate::minimessage::escape::{is_boundary, push_char};
use vstd::string::StringExecFns;

verus! {

broadcast use vstd::utf8::encode_utf8_valid_utf8;

/// The arguments of one tag, held in a `smallvec::SmallVec` with room for four inline.
/// `SmallVec`'s parameter is bounded by smallvec's own `Array` trait, which Verus does not
/// take in a type declaration, so the vector is held in this opaque struct and reached
/// only through the functions below.
#[verifier::external_body]
pub struct ArgList {
    items: smallvec::SmallVec<[String; 4]>,
}

/// The texts that an argument list holds, in order.
pub uninterp spec fn arg_items(args: ArgList) -> Seq<Seq<char>>;

/// An empty list, with `SmallVec::new`.
#[verifier::external_body]
pub(crate) fn args_new() -> (r: ArgList)
    ensures
        arg_items(r) == Seq::<Seq<char>>::empty(),
{
    ArgList { items: smallvec::SmallVec::new() }
}

/// Appends an item, with `SmallVec::push`. Like `Vec::push`, it stops the program only
/// where the grown buffer's size overflows or it cannot be allocated; that limit of the
/// machine is not stated.
#[verifier::external_body]
pub(crate) fn args_push(args: &mut ArgList, item: String)
    ensures
        arg_items(*final(args)) == arg_items(*old(args)).push(item@),
{
    args.items.push(item)
}

/// The number of items, with `SmallVec::len`.
#[verifier::external_body]
pub(crate) fn args_len(args: &ArgList) -> (r: usize)
    ensures
        r == arg_items(*args).len(),
{
    args.items.len()
}

/// Removes and returns the first item, with `SmallVec::remove`.
#[verifier::external_body]
pub(crate) fn args_remove_first(args: &mut ArgList) -> (r: String)
    requires
        arg_items(*old(args)).len() > 0,
    ensures
        r@ == arg_items(*old(args))[0],
        arg_items(*final(args)) == arg_items(*old(args)).drop_first(),
{
    args.items.remove(0)
}

/// The item at an index, through the slice that a `SmallVec` dereferences to.
#[verifier::external_body]
pub(crate) fn args_get(args: &ArgList, i: usize) -> (r: &String)
    requires
        i < arg_items(*args).len(),
    ensures
        r@ == arg_items(*args)[i as int],
{
    &args.items[i]
}

/// The texts that an argument list holds, in order, as a vector.
pub fn arg_texts(args: &ArgList) -> (r: Vec<String>)
    ensures
        r@.len() == arg_items(*args).len(),
        forall|i: int| 0 <= i < r@.len() ==> #[trigger] r@[i]@ == arg_items(*args)[i],
{
    let n = args_len(args);
    let mut out: Vec<String> = Vec::new();
    let mut i: usize = 0;
    while i < n
        invariant
            n == arg_items(*args).len(),
            i <= n,
            out@.len() == i,
            forall|j: int| 0 <= j < i ==> #[trigger] out@[j]@ == arg_items(*args)[j],
        decreases n - i,
    {
        out.push(args_get(args, i).clone());
        i = i + 1;
    }
    out
}

/// The rest of a quoted argument whose content starts at `content_start`, read from
/// `pos` with the escaped text gathered so far; its text and the position after it, or
/// `None` where the text would be cut inside a character. Where the closing quote is
/// missing after an escape, the whole content is appended once more to what was gathered.
pub open spec fn quoted(
    bytes: Seq<u8>,
    quote: u8,
    content_start: int,
    pos: int,
    escaped: Seq<char>,
    has_escape: bool,
) -> Option<(Seq<char>, int)>
    decreases bytes.len() - pos,
{
    let len = bytes.len() as int;
    if pos < content_start || pos > len || content_start < 0 {
        None
    } else {
        match first_of(bytes, pos, len, quote, BACKSLASH) {
            None => if !boundary(bytes, content_start) {
                None
            } else if has_escape {
                Some((escaped + text(bytes, content_start, len), len))
            } else {
                Some((text(bytes, content_start, len), len))
            },
            Some(k) => if k < pos {
                None
            } else if bytes[k] == quote {
                if !boundary(bytes, pos) {
                    None
                } else if has_escape {
                    Some((escaped + text(bytes, pos, k), k + 1))
                } else {
                    Some((text(bytes, pos, k), k + 1))
                }
            } else {
                let piece_start = if escaped.len() == 0 {
                    content_start
                } else {
                    pos
                };
                if !boundary(bytes, piece_start) || piece_start > k {
                    None
                } else {
                    let gathered = escaped + text(bytes, piece_start, k);
                    let p = k + 1;
                    if p < len {
                        let b = bytes[p];
                        let next = if b == BACKSLASH {
                            gathered.push('\\')
                        } else if b == DOUBLE_QUOTE && quote == DOUBLE_QUOTE {
                            gathered.push('"')
                        } else if b == SINGLE_QUOTE && quote == SINGLE_QUOTE {
                            gathered.push('\'')
                        } else {
                            gathered.push('\\').push(b as char)
                        };
                        quoted(bytes, quote, content_start, p + 1, next, true)
                    } else {
                        Some((gathered.push('\\'), len))
                    }
                }
            },
        }
    }
}

/// The arguments read from `pos` on, after those already read; the arguments and the
/// position where reading stopped (at a `>` that ends the tag, or the end), or `None`
/// where a text would be cut inside a character.
pub open spec fn split_args_from(bytes: Seq<u8>, pos: int, args: Seq<Seq<char>>) -> Option<
    (Seq<Seq<char>>, int),
>
    decreases bytes.len() - pos,
{
    let len = bytes.len() as int;
    if pos >= len || pos < 0 {
        Some((args, pos))
    } else if bytes[pos] == DOUBLE_QUOTE || bytes[pos] == SINGLE_QUOTE {
        match quoted(bytes, bytes[pos], pos + 1, pos + 1, Seq::empty(), false) {
            None => None,
            Some((arg, after)) => if after <= pos || after > len {
                None
            } else if after < len && bytes[after] == COLON {
                split_args_from(bytes, after + 1, args.push(arg))
            } else {
                Some((args.push(arg), after))
            },
        }
    } else {
        match first_of(bytes, pos, len, COLON, GREATER) {
            Some(idx) => if idx < pos || idx >= len {
                None
            } else if bytes[idx] == GREATER {
                Some((if pos < idx { args.push(text(bytes, pos, idx)) } else { args }, idx))
            } else {
                split_args_from(bytes, idx + 1, args.push(text(bytes, pos, idx)))
            },
            None => Some((args.push(text(bytes, pos, len)), len)),
        }
    }
}

/// The arguments of `items` joined by `:`, where a colon is put only after a non-empty
/// text.
pub open spec fn join_prefix(items: Seq<Seq<char>>, n: int) -> Seq<char>
    decreases n,
{
    if n <= 0 {
        Seq::empty()
    } else {
        let before = join_prefix(items, n - 1);
        if before.len() > 0 {
            before + seq![':'] + items[n - 1]
        } else {
            before + items[n - 1]
        }
    }
}

/// The text that a list of arguments joins to: nothing for no arguments, the argument
/// itself for one.
pub open spec fn joined(items: Seq<Seq<char>>) -> Seq<char> {
    if items.len() == 0 {
        Seq::empty()
    } else if items.len() == 1 {
        items[0]
    } else {
        join_prefix(items, items.len() as int)
    }
}

/// Reads the rest of a quoted argument; see `quoted`.
#[verifier::spinoff_prover]
#[verifier::rlimit(30)]
fn read_quoted(s: &str, bytes: &[u8], quote: u8, content_start: usize) -> (r: Option<(String, usize)>)
    requires
        bytes@ == s.spec_bytes(),
        0 < content_start <= bytes@.len(),
        bytes@[content_start - 1] == quote,
        quote == DOUBLE_QUOTE || quote == SINGLE_QUOTE,
        boundary(bytes@, content_start - 1),
    ensures
        match r {
            Some((t, p)) => quoted(bytes@, quote, content_start as int, content_start as int, Seq::empty(), false)
                == Some((t@, p as int)),
            None => quoted(bytes@, quote, content_start as int, content_start as int, Seq::empty(), false) is None,
        },
{
    let ghost b = bytes@;
    let len = bytes.len();
    let mut escaped = String::new();
    let mut has_escape = false;
    let mut pos = content_start;
    proof {
        lemma_boundary_after_ascii(b, content_start - 1);
    }
    loop
        invariant
            b == bytes@,
            b == s.spec_bytes(),
            valid_utf8(b),
            len == b.len(),
            content_start <= pos <= len,
            boundary(b, content_start as int),
            quote == DOUBLE_QUOTE || quote == SINGLE_QUOTE,
            quoted(b, quote, content_start as int, content_start as int, Seq::empty(), false)
                == quoted(b, quote, content_start as int, pos as int, escaped@, has_escape),
        decreases len - pos,
    {
        let found = search(bytes, pos, len, quote, BACKSLASH);
        proof {
            lemma_first_of_found(b, pos as int, len as int, quote, BACKSLASH);
        }
        match found {
            None => {
                let rest = substring(s, content_start, len);
                if has_escape {
                    escaped.append(rest.as_str());
                    return Some((escaped, len));
                } else {
                    return Some((rest, len));
                }
            },
            Some(k) => {
                proof {
                    lemma_boundary(b, k as int);
                    assert(b[k as int] < 0x80);
                    assert(boundary(b, k as int));
                }
                if bytes[k] == quote {
                    if !is_boundary(bytes, pos) {
                        return None;
                    }
                    let piece = substring(s, pos, k);
                    if has_escape {
                        escaped.append(piece.as_str());
                        return Some((escaped, k + 1));
                    } else {
                        return Some((piece, k + 1));
                    }
                } else {
                    let piece_start = if escaped.as_str().is_empty() {
                        content_start
                    } else {
                        pos
                    };
                    if !is_boundary(bytes, piece_start) {
                        return None;
                    }
                    has_escape = true;
                    let piece = substring(s, piece_start, k);
                    escaped.append(piece.as_str());
                    let p = k + 1;
                    if p < len {
                        let nb = bytes[p];
                        if nb == BACKSLASH {
                            push_char(&mut escaped, '\\');
                        } else if nb == DOUBLE_QUOTE && quote == DOUBLE_QUOTE {
                            push_char(&mut escaped, '"');
                        } else if nb == SINGLE_QUOTE && quote == SINGLE_QUOTE {
                            push_char(&mut escaped, '\'');
                        } else {
                            push_char(&mut escaped, '\\');
                            push_char(&mut escaped, nb as char);
                        }
                        pos = p + 1;
                    } else {
                        push_char(&mut escaped, '\\');
                        return Some((escaped, len));
                    }
                }
            },
        }
    }
}

/// Reads the arguments of a tag from `start`, where a character begins (in a tag, just
/// after the `:` that follows its name), up to the `>` that ends the tag or the end of the
/// markup; the arguments and the position where reading stopped, or `None` on the markups
/// that would cut a character.
#[verifier::spinoff_prover]
#[verifier::rlimit(30)]
pub fn split_args(s: &str, start: usize) -> (r: Option<(ArgList, usize)>)
    requires
        start <= s.spec_bytes().len(),
        boundary(s.spec_bytes(), start as int),
    ensures
        match r {
            Some((args, p)) => split_args_from(s.spec_bytes(), start as int, Seq::empty())
                == Some((arg_items(args), p as int)),
            None => split_args_from(s.spec_bytes(), start as int, Seq::empty()) is None,
        },
{
    let bytes = s.as_bytes();
    let ghost b = bytes@;
    let len = bytes.len();
    let mut args = args_new();
    let mut pos = start;
    loop
        invariant
            b == bytes@,
            b == s.spec_bytes(),
            valid_utf8(b),
            len == b.len(),
            start <= pos <= len,
            boundary(b, pos as int),
            split_args_from(b, start as int, Seq::empty()) == split_args_from(b, pos as int, arg_items(args)),
        decreases len - pos,
    {
        if pos >= len {
            return Some((args, pos));
        }
        let c = bytes[pos];
        if c == DOUBLE_QUOTE || c == SINGLE_QUOTE {
            match read_quoted(s, bytes, c, pos + 1) {
                None => return None,
                Some((arg, after)) => {
                    proof {
                        lemma_quoted_advances(b, c, pos + 1, pos + 1, Seq::empty(), false);
                    }
                    args_push(&mut args, arg);
                    if after < len && bytes[after] == COLON {
                        proof {
                            lemma_boundary_after_ascii(b, after as int);
                        }
                        pos = after + 1;
                    } else {
                        return Some((args, after));
                    }
                },
            }
        } else {
            let found = search(bytes, pos, len, COLON, GREATER);
            proof {
                lemma_first_of_found(b, pos as int, len as int, COLON, GREATER);
            }
            match found {
                Some(idx) => {
                    proof {
                        lemma_boundary(b, idx as int);
                    }
                    if bytes[idx] == GREATER {
                        if pos < idx {
                            let arg = substring(s, pos, idx);
                            args_push(&mut args, arg);
                        }
                        return Some((args, idx));
                    } else {
                        let arg = substring(s, pos, idx);
                        args_push(&mut args, arg);
                        proof {
                            lemma_boundary_after_ascii(b, idx as int);
                        }
                        pos = idx + 1;
                    }
                },
                None => {
                    let arg = substring(s, pos, len);
                    args_push(&mut args, arg);
                    return Some((args, len));
                },
            }
        }
    }
}

/// A quoted argument ends after it starts, and within the markup.
pub proof fn lemma_quoted_advances(
    bytes: Seq<u8>,
    quote: u8,
    content_start: int,
    pos: int,
    escaped: Seq<char>,
    has_escape: bool,
)
    ensures
        quoted(bytes, quote, content_start, pos, escaped, has_escape) matches Some((_, p)) ==> pos
            < p <= bytes.len() || (pos == p && p == bytes.len()),
    decreases bytes.len() - pos,
{
    let len = bytes.len() as int;
    if pos < content_start || pos > len || content_start < 0 {
    } else {
        lemma_first_of_found(bytes, pos, len, quote, BACKSLASH);
        match first_of(bytes, pos, len, quote, BACKSLASH) {
            None => {},
            Some(k) => {
                if k >= pos && bytes[k] != quote {
                    let piece_start = if escaped.len() == 0 {
                        content_start
                    } else {
                        pos
                    };
                    if boundary(bytes, piece_start) && piece_start <= k {
                        let gathered = escaped + text(bytes, piece_start, k);
                        let p = k + 1;
                        if p < len {
                            let b = bytes[p];
                            let next = if b == BACKSLASH {
                                gathered.push('\\')
                            } else if b == DOUBLE_QUOTE && quote == DOUBLE_QUOTE {
                                gathered.push('"')
                            } else if b == SINGLE_QUOTE && quote == SINGLE_QUOTE {
                                gathered.push('\'')
                            } else {
                                gathered.push('\\').push(b as char)
                            };
                            lemma_quoted_advances(bytes, quote, content_start, p + 1, next, true);
                        }
                    }
                }
            },
        }
    }
}

/// Removes and returns the first argument, if there is one.
pub fn take_first_arg(args: &mut ArgList) -> (r: Option<String>)
    ensures
        arg_items(*old(args)).len() == 0 ==> r is None && arg_items(*final(args)) == arg_items(
            *old(args),
        ),
        arg_items(*old(args)).len() > 0 ==> (r matches Some(t) && t@ == arg_items(*old(args))[0]
            && arg_items(*final(args)) == arg_items(*old(args)).drop_first()),
{
    if args_len(args) == 0 {
        None
    } else {
        Some(args_remove_first(args))
    }
}

/// Joins the arguments with `:`, putting a colon only after a non-empty text.
pub fn join_with_colon(args: &ArgList) -> (r: String)
    ensures
        r@ == joined(arg_items(*args)),
{
    let n = args_len(args);
    if n == 0 {
        return String::new();
    }
    if n == 1 {
        return args_get(args, 0).clone();
    }
    let mut result = String::new();
    let mut i: usize = 0;
    while i < n
        invariant
            n == arg_items(*args).len(),
            i <= n,
            result@ == join_prefix(arg_items(*args), i as int),
        decreases n - i,
    {
        let a = args_get(args, i);
        if !result.as_str().is_empty() {
            push_char(&mut result, ':');
        }
        result.append(a.as_str());
        i = i + 1;
    }
    result
}

} // verus!
