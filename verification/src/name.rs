//! Content-addressed names for everything Lini writes into a namespace the
//! **page** owns, not the figure: `<defs>` ids, an embedded asset's id
//! prefix, and the stylesheet's scope class.
//!
//! Inlining two compiled figures into one HTML document merges their id and
//! selector spaces. No self-contained figure can guarantee a name nothing
//! else on the page holds; what it can guarantee is that **a shared name
//! names the same thing** — so every such name is derived from the thing it
//! names. Two figures then collide only where their definitions are
//! identical, and there sharing is correct.

use crate::text::push_str;
use vstd::prelude::*;
use vstd::string::StringSliceAdditionalSpecFns;

verus! {

/// The 64-bit FNV-1a state after hashing `bytes`.
pub open spec fn fnv1a(bytes: Seq<u8>) -> u64
    decreases bytes.len(),
{
    if bytes.len() == 0 {
        0xcbf2_9ce4_8422_2325u64
    } else {
        let h = fnv1a(bytes.drop_last()) ^ (bytes.last() as u64);
        ((h as nat * 0x0000_0100_0000_01b3nat) % 0x1_0000_0000_0000_0000nat) as u64
    }
}

/// The hash folded to 32 bits: the high half XORed into the low half.
pub open spec fn folded(h: u64) -> u32 {
    (h ^ (h >> 32u64)) as u32
}

/// The lowercase hex digit for `d` in `0..16`.
pub open spec fn hex_char(d: int) -> char {
    if d < 10 {
        ((d + 48) as u8) as char
    } else {
        ((d + 87) as u8) as char
    }
}

/// `v` as exactly eight lowercase hex digits, most significant first.
pub open spec fn hex8(v: u32) -> Seq<char> {
    seq![
        hex_char(((v / 0x1000_0000u32) % 16) as int),
        hex_char(((v / 0x0100_0000u32) % 16) as int),
        hex_char(((v / 0x0010_0000u32) % 16) as int),
        hex_char(((v / 0x0001_0000u32) % 16) as int),
        hex_char(((v / 0x0000_1000u32) % 16) as int),
        hex_char(((v / 0x0000_0100u32) % 16) as int),
        hex_char(((v / 0x0000_0010u32) % 16) as int),
        hex_char((v % 16) as int),
    ]
}

/// The tag every name carries: FNV-1a over the bytes, folded to 32 bits,
/// hex-formatted.
pub open spec fn tag_text(bytes: Seq<u8>) -> Seq<char> {
    hex8(folded(fnv1a(bytes)))
}

pub(crate) fn hex_digit(d: u32) -> (c: char)
    requires
        d < 16,
    ensures
        c == hex_char(d as int),
{
    if d < 10 {
        ((d as u8) + 48) as char
    } else {
        ((d as u8) + 87) as char
    }
}

/// FNV-1a over `bytes`, folded to 32 bits and hex-formatted. Integer-only,
/// so a name is byte-stable across runs, platforms, and toolchains.
pub fn tag(bytes: &[u8]) -> (t: String)
    ensures
        t@ == tag_text(bytes@),
{
    let mut h: u64 = 0xcbf2_9ce4_8422_2325;
    let n = bytes.len();
    let mut i: usize = 0;
    while i < n
        invariant
            n == bytes@.len(),
            i <= n,
            h == fnv1a(bytes@.take(i as int)),
        decreases n - i,
    {
        proof {
            assert(bytes@.take(i + 1).drop_last() =~= bytes@.take(i as int));
        }
        h = h ^ (bytes[i] as u64);
        h = h.wrapping_mul(0x0000_0100_0000_01b3);
        i = i + 1;
    }
    proof {
        assert(bytes@.take(n as int) =~= bytes@);
    }
    let v = (h ^ (h >> 32)) as u32;
    let mut s = String::new();
    s.push(hex_digit((v / 0x1000_0000) % 16));
    s.push(hex_digit((v / 0x0100_0000) % 16));
    s.push(hex_digit((v / 0x0010_0000) % 16));
    s.push(hex_digit((v / 0x0001_0000) % 16));
    s.push(hex_digit((v / 0x0000_1000) % 16));
    s.push(hex_digit((v / 0x0000_0100) % 16));
    s.push(hex_digit((v / 0x0000_0010) % 16));
    s.push(hex_digit(v % 16));
    proof {
        assert(s@ =~= tag_text(bytes@));
    }
    s
}

/// The id a `<defs>` entry is published under: `lini-{kind}-{tag}`, where
/// `body` canonically identifies the definition.
pub fn def_id(kind: &str, body: &str) -> (id: String)
    ensures
        id@ == "lini-"@ + kind@ + "-"@ + tag_text(body.spec_bytes()),
{
    let t = tag(body.as_bytes());
    let mut s = String::new();
    push_str(&mut s, "lini-");
    push_str(&mut s, kind);
    push_str(&mut s, "-");
    push_str(&mut s, t.as_str());
    proof {
        assert(s@ =~= "lini-"@ + kind@ + "-"@ + tag_text(body.spec_bytes()));
    }
    s
}

/// The prefix every id inside an embedded SVG asset is rewritten to wear —
/// from the asset's own bytes.
pub fn asset_prefix(bytes: &[u8]) -> (p: String)
    ensures
        p@ == "lini-a"@ + tag_text(bytes@) + "-"@,
{
    let t = tag(bytes);
    let mut s = String::new();
    push_str(&mut s, "lini-a");
    push_str(&mut s, t.as_str());
    push_str(&mut s, "-");
    proof {
        assert(s@ =~= "lini-a"@ + tag_text(bytes@) + "-"@);
    }
    s
}

/// The class the root `<svg>` wears and every selector in its `<style>` is
/// headed by — from that stylesheet's own text.
pub fn scope_class(stylesheet: &str) -> (c: String)
    ensures
        c@ == "lini-scope-"@ + tag_text(stylesheet.spec_bytes()),
{
    let t = tag(stylesheet.as_bytes());
    let mut s = String::new();
    push_str(&mut s, "lini-scope-");
    push_str(&mut s, t.as_str());
    proof {
        assert(s@ =~= "lini-scope-"@ + tag_text(stylesheet.spec_bytes()));
    }
    s
}

/// A shared name names the same thing: the same kind and body always give
/// the same id, so one definition emitted twice is one definition.
pub proof fn law_def_id_names_its_body(kind1: Seq<char>, body1: Seq<u8>, kind2: Seq<char>, body2: Seq<u8>)
    requires
        kind1 == kind2,
        body1 == body2,
    ensures
        "lini-"@ + kind1 + "-"@ + tag_text(body1) == "lini-"@ + kind2 + "-"@ + tag_text(body2),
{
}

} // verus!
