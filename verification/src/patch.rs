//! Framing of the merge-patch document the controller sends the external
//! store: a JSON object whose `data` field maps each destination key to
//! its base64-encoded value.
use vstd::prelude::*;

use crate::secret_data::SecretData;

verus! {

/// The base64 alphabet, in value order.
pub open spec fn b64_alphabet() -> Seq<char> {
    "ABCDEFGHIJKLMNOPQRSTUVWXYZabcdefghijklmnopqrstuvwxyz0123456789+/"@
}

pub open spec fn b64_char(i: int) -> char {
    b64_alphabet()[i]
}

/// Standard base64 with `=` padding: each group of three bytes becomes
/// four alphabet characters; a final group of one or two bytes is padded.
pub open spec fn b64_of(s: Seq<u8>) -> Seq<char>
    decreases s.len(),
{
    if s.len() == 0 {
        Seq::empty()
    } else if s.len() == 1 {
        let b0 = s[0] as int;
        seq![b64_char(b0 / 4), b64_char((b0 % 4) * 16), '=', '=']
    } else if s.len() == 2 {
        let b0 = s[0] as int;
        let b1 = s[1] as int;
        seq![b64_char(b0 / 4), b64_char((b0 % 4) * 16 + b1 / 16), b64_char((b1 % 16) * 4), '=']
    } else {
        let b0 = s[0] as int;
        let b1 = s[1] as int;
        let b2 = s[2] as int;
        seq![
            b64_char(b0 / 4),
            b64_char((b0 % 4) * 16 + b1 / 16),
            b64_char((b1 % 16) * 4 + b2 / 64),
            b64_char(b2 % 64),
        ] + b64_of(s.skip(3))
    }
}

pub open spec fn hex_char(i: int) -> char {
    "0123456789abcdef"@[i]
}

/// How one character of a key stands in the JSON document: quote and
/// backslash get a backslash escape, other control characters a four-digit
/// escape, everything else stands as itself.
pub open spec fn esc_char(c: char) -> Seq<char> {
    if c == '"' {
        seq!['\\', '"']
    } else if c == '\\' {
        seq!['\\', '\\']
    } else if (c as u32) < 32 {
        seq![
            '\\',
            'u',
            '0',
            '0',
            hex_char((c as u32) as int / 16),
            hex_char((c as u32) as int % 16),
        ]
    } else {
        seq![c]
    }
}

/// A key as it stands inside its JSON quotes.
pub open spec fn esc(s: Seq<char>) -> Seq<char>
    decreases s.len(),
{
    if s.len() == 0 {
        Seq::empty()
    } else {
        esc_char(s[0]) + esc(s.drop_first())
    }
}

/// One `"key":"base64value"` member of the document's `data` object.
pub open spec fn entry_doc(k: Seq<char>, v: Seq<u8>) -> Seq<char> {
    seq!['"'] + esc(k) + seq!['"', ':', '"'] + b64_of(v) + seq!['"']
}

/// The members of the `data` object, comma-separated, in entry order.
pub open spec fn entries_doc(es: Seq<(Seq<char>, Seq<u8>)>) -> Seq<char>
    decreases es.len(),
{
    if es.len() == 0 {
        Seq::empty()
    } else if es.len() == 1 {
        entry_doc(es[0].0, es[0].1)
    } else {
        entries_doc(es.drop_last()) + seq![','] + entry_doc(es.last().0, es.last().1)
    }
}

/// The whole merge-patch document for an update set.
pub open spec fn patch_doc_of(es: Seq<(Seq<char>, Seq<u8>)>) -> Seq<char> {
    "{\"data\":{"@ + entries_doc(es) + "}}"@
}

fn b64_char_at(i: u8) -> (c: char)
    requires
        i < 64,
    ensures
        c == b64_char(i as int),
{
    let table = "ABCDEFGHIJKLMNOPQRSTUVWXYZabcdefghijklmnopqrstuvwxyz0123456789+/";
    proof {
        reveal_strlit("ABCDEFGHIJKLMNOPQRSTUVWXYZabcdefghijklmnopqrstuvwxyz0123456789+/");
    }
    table.get_char(i as usize)
}

fn hex_char_at(i: u32) -> (c: char)
    requires
        i < 16,
    ensures
        c == hex_char(i as int),
{
    let table = "0123456789abcdef";
    proof {
        reveal_strlit("0123456789abcdef");
    }
    table.get_char(i as usize)
}

/// Base64-encode a value.
pub fn base64(bytes: &Vec<u8>) -> (r: Vec<char>)
    ensures
        r@ == b64_of(bytes@),
{
    let n = bytes.len();
    let mut out: Vec<char> = Vec::new();
    let mut i: usize = 0;
    proof {
        assert(bytes@.skip(0) =~= bytes@);
    }
    while n - i >= 3
        invariant
            n == bytes@.len(),
            0 <= i <= n,
            b64_of(bytes@) == out@ + b64_of(bytes@.skip(i as int)),
        decreases n - i,
    {
        let ghost prev = out@;
        let b0 = bytes[i];
        let b1 = bytes[i + 1];
        let b2 = bytes[i + 2];
        proof {
            assert(bytes@.skip(i as int)[0] == b0);
            assert(bytes@.skip(i as int)[1] == b1);
            assert(bytes@.skip(i as int)[2] == b2);
            assert(bytes@.skip(i as int).skip(3) =~= bytes@.skip(i + 3));
        }
        let c0 = b64_char_at(b0 / 4);
        let c1 = b64_char_at((b0 % 4) * 16 + b1 / 16);
        let c2 = b64_char_at((b1 % 16) * 4 + b2 / 64);
        let c3 = b64_char_at(b2 % 64);
        out.push(c0);
        out.push(c1);
        out.push(c2);
        out.push(c3);
        proof {
            assert(out@ =~= prev + seq![c0, c1, c2, c3]);
            assert(b64_of(bytes@.skip(i as int)) == seq![c0, c1, c2, c3] + b64_of(
                bytes@.skip(i + 3),
            ));
            assert(out@ + b64_of(bytes@.skip(i + 3)) =~= prev + b64_of(bytes@.skip(i as int)));
        }
        i += 3;
    }
    let ghost prev = out@;
    if n - i == 1 {
        let b0 = bytes[i];
        proof {
            assert(bytes@.skip(i as int)[0] == b0);
            assert(bytes@.skip(i as int).len() == 1);
        }
        let c0 = b64_char_at(b0 / 4);
        let c1 = b64_char_at((b0 % 4) * 16);
        out.push(c0);
        out.push(c1);
        out.push('=');
        out.push('=');
        proof {
            assert(out@ =~= prev + seq![c0, c1, '=', '=']);
        }
    } else if n - i == 2 {
        let b0 = bytes[i];
        let b1 = bytes[i + 1];
        proof {
            assert(bytes@.skip(i as int)[0] == b0);
            assert(bytes@.skip(i as int)[1] == b1);
            assert(bytes@.skip(i as int).len() == 2);
        }
        let c0 = b64_char_at(b0 / 4);
        let c1 = b64_char_at((b0 % 4) * 16 + b1 / 16);
        let c2 = b64_char_at((b1 % 16) * 4);
        out.push(c0);
        out.push(c1);
        out.push(c2);
        out.push('=');
        proof {
            assert(out@ =~= prev + seq![c0, c1, c2, '=']);
        }
    } else {
        proof {
            assert(bytes@.skip(i as int).len() == 0);
            assert(out@ =~= prev + b64_of(bytes@.skip(i as int)));
        }
    }
    out
}

fn push_escaped(out: &mut Vec<char>, c: char)
    ensures
        final(out)@ == old(out)@ + esc_char(c),
{
    if c == '"' {
        out.push('\\');
        out.push('"');
        proof {
            assert(out@ =~= old(out)@ + esc_char(c));
        }
    } else if c == '\\' {
        out.push('\\');
        out.push('\\');
        proof {
            assert(out@ =~= old(out)@ + esc_char(c));
        }
    } else {
        let cv = c as u32;
        if cv < 32 {
            out.push('\\');
            out.push('u');
            out.push('0');
            out.push('0');
            out.push(hex_char_at(cv / 16));
            out.push(hex_char_at(cv % 16));
            proof {
                assert(out@ =~= old(out)@ + esc_char(c));
            }
        } else {
            out.push(c);
            proof {
                assert(out@ =~= old(out)@ + esc_char(c));
            }
        }
    }
}

/// Append a key's characters as they stand inside JSON quotes.
fn escape_into(out: &mut Vec<char>, s: &str)
    ensures
        final(out)@ == old(out)@ + esc(s@),
{
    let n = s.unicode_len();
    let mut i: usize = 0;
    proof {
        assert(s@.skip(0) =~= s@);
    }
    while i < n
        invariant
            n == s@.len(),
            0 <= i <= n,
            out@ + esc(s@.skip(i as int)) == old(out)@ + esc(s@),
        decreases n - i,
    {
        let ghost prev = out@;
        let c = s.get_char(i);
        push_escaped(out, c);
        proof {
            assert(s@.skip(i as int)[0] == c);
            assert(s@.skip(i as int).drop_first() =~= s@.skip(i + 1));
            assert(esc(s@.skip(i as int)) == esc_char(c) + esc(s@.skip(i + 1)));
            assert(out@ + esc(s@.skip(i + 1)) =~= prev + esc(s@.skip(i as int)));
        }
        i += 1;
    }
    proof {
        assert(esc(s@.skip(n as int)) == Seq::<char>::empty());
        assert(out@ =~= out@ + esc(s@.skip(n as int)));
    }
}

fn push_str_chars(out: &mut Vec<char>, s: &str)
    ensures
        final(out)@ == old(out)@ + s@,
{
    let n = s.unicode_len();
    let mut i: usize = 0;
    while i < n
        invariant
            n == s@.len(),
            0 <= i <= n,
            out@ == old(out)@ + s@.take(i as int),
        decreases n - i,
    {
        let c = s.get_char(i);
        out.push(c);
        proof {
            assert(s@.take(i + 1) =~= s@.take(i as int).push(c));
            assert(out@ =~= old(out)@ + s@.take(i + 1));
        }
        i += 1;
    }
    proof {
        assert(s@.take(n as int) =~= s@);
    }
}

/// Render the merge-patch document for an update set, in entry order.
pub fn render_merge_patch(updates: &SecretData) -> (r: Vec<char>)
    ensures
        r@ == patch_doc_of(updates.entry_seq()),
{
    let ghost es = updates.entry_seq();
    let mut out: Vec<char> = Vec::new();
    push_str_chars(&mut out, "{\"data\":{");
    let n = updates.len();
    let mut i: usize = 0;
    while i < n
        invariant
            n == es.len(),
            es == updates.entry_seq(),
            0 <= i <= n,
            out@ == "{\"data\":{"@ + entries_doc(es.take(i as int)),
        decreases n - i,
    {
        let ghost prev = out@;
        if i > 0 {
            out.push(',');
        }
        out.push('"');
        let (k, v) = updates.entry_at(i);
        escape_into(&mut out, k.as_str());
        push_str_chars(&mut out, "\":\"");
        let mut enc = base64(v);
        out.append(&mut enc);
        out.push('"');
        proof {
            reveal_strlit("\":\"");
            assert("\":\""@ =~= seq!['"', ':', '"']);
            assert(es.take(i + 1).drop_last() =~= es.take(i as int));
            assert(es.take(i + 1).last() == es[i as int]);
            if i == 0 {
                assert(entries_doc(es.take(1)) == entry_doc(es[0].0, es[0].1));
                assert(out@ =~= prev + entry_doc(es[0].0, es[0].1));
            } else {
                assert(entries_doc(es.take(i + 1)) == entries_doc(es.take(i as int)) + seq![',']
                    + entry_doc(es[i as int].0, es[i as int].1));
                assert(out@ =~= prev + seq![','] + entry_doc(es[i as int].0, es[i as int].1));
            }
            assert(out@ =~= "{\"data\":{"@ + entries_doc(es.take(i + 1)));
        }
        i += 1;
    }
    push_str_chars(&mut out, "}}");
    proof {
        assert(es.take(n as int) =~= es);
        assert(out@ =~= patch_doc_of(es));
    }
    out
}

} // verus!
