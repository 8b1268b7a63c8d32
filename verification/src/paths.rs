//! The mapping between working-tree relative paths and flat storage keys.
//!
//! A path separator becomes the key separator byte; a literal key-separator
//! byte and a literal escape-lead byte in the path are written as two-byte
//! escape pairs.  The encoding is reversible for every path — no two paths
//! share a storage key — so a restored file always lands back on the path it
//! was committed from.

use vstd::prelude::*;

verus! {

/// The byte that separates path components in the working tree.
pub open spec fn separator_byte() -> u8 {
    47u8
}

/// The byte a path separator becomes in a storage key.
pub open spec fn key_separator_byte() -> u8 {
    95u8
}

/// The escape lead byte of a storage key: it opens the two-byte encodings
/// of the bytes a key cannot hold bare.
pub open spec fn escape_lead_byte() -> u8 {
    37u8
}

/// The second byte of the pair that encodes a literal key-separator byte.
pub open spec fn escaped_separator_mark() -> u8 {
    117u8
}

/// The second byte of the pair that encodes a literal escape-lead byte.
pub open spec fn escaped_lead_mark() -> u8 {
    112u8
}

/// The encoding of one path byte: a separator becomes the key separator;
/// the two bytes with special meaning in keys become escape pairs; every
/// other byte stands for itself.
pub open spec fn spec_escape_byte(b: u8) -> Seq<u8> {
    if b == separator_byte() {
        seq![key_separator_byte()]
    } else if b == key_separator_byte() {
        seq![escape_lead_byte(), escaped_separator_mark()]
    } else if b == escape_lead_byte() {
        seq![escape_lead_byte(), escaped_lead_mark()]
    } else {
        seq![b]
    }
}

/// The storage-directory key of a working-tree path: each byte encoded in
/// order.
pub open spec fn spec_escape_path(path: Seq<u8>) -> Seq<u8>
    decreases path.len(),
{
    if path.len() == 0 {
        Seq::empty()
    } else {
        spec_escape_byte(path[0]) + spec_escape_path(path.drop_first())
    }
}

/// The working-tree path a storage key maps back to: a bare key separator
/// becomes a path separator, an escape pair becomes the byte it encodes,
/// and every other byte stands for itself.  A malformed key — an escape
/// lead at the end, or one followed by an unknown mark — keeps its bytes
/// bare; `spec_escape_path` never produces such a key.
pub open spec fn spec_unescape_path(key: Seq<u8>) -> Seq<u8>
    decreases key.len(),
{
    if key.len() == 0 {
        Seq::empty()
    } else if key[0] == key_separator_byte() {
        seq![separator_byte()] + spec_unescape_path(key.drop_first())
    } else if key[0] == escape_lead_byte() && key.len() >= 2 {
        if key[1] == escaped_separator_mark() {
            seq![key_separator_byte()] + spec_unescape_path(key.skip(2))
        } else if key[1] == escaped_lead_mark() {
            seq![escape_lead_byte()] + spec_unescape_path(key.skip(2))
        } else {
            seq![key[0]] + spec_unescape_path(key.drop_first())
        }
    } else {
        seq![key[0]] + spec_unescape_path(key.drop_first())
    }
}

/// Escaping is reversible for every path: decoding a path's storage key
/// gives the path back, byte for byte, with no restriction on what the
/// path holds.
pub proof fn lemma_escape_round_trip(path: Seq<u8>)
    ensures
        spec_unescape_path(spec_escape_path(path)) == path,
    decreases path.len(),
{
    if path.len() > 0 {
        let b = path[0];
        let enc = spec_escape_byte(b);
        let rest = spec_escape_path(path.drop_first());
        let key = spec_escape_path(path);
        lemma_escape_round_trip(path.drop_first());
        assert(key == enc + rest);
        if b == separator_byte() {
            assert(key[0] == key_separator_byte());
            assert(key.drop_first() =~= rest);
            assert(spec_unescape_path(key) == seq![separator_byte()] + path.drop_first());
        } else if b == key_separator_byte() {
            assert(key[0] == escape_lead_byte());
            assert(key.len() >= 2 && key[1] == escaped_separator_mark());
            assert(key.skip(2) =~= rest);
            assert(spec_unescape_path(key) == seq![key_separator_byte()] + path.drop_first());
        } else if b == escape_lead_byte() {
            assert(key[0] == escape_lead_byte());
            assert(key.len() >= 2 && key[1] == escaped_lead_mark());
            assert(key.skip(2) =~= rest);
            assert(spec_unescape_path(key) == seq![escape_lead_byte()] + path.drop_first());
        } else {
            assert(key[0] == b);
            assert(key.drop_first() =~= rest);
            assert(spec_unescape_path(key) == seq![b] + path.drop_first());
        }
        assert(seq![b] + path.drop_first() =~= path);
    }
}

/// No two paths share a storage key: the encoding is injective over all
/// byte paths, which is the bijection the per-file store relies on.
pub proof fn lemma_escape_injective(p1: Seq<u8>, p2: Seq<u8>)
    requires
        spec_escape_path(p1) == spec_escape_path(p2),
    ensures
        p1 == p2,
{
    lemma_escape_round_trip(p1);
    lemma_escape_round_trip(p2);
}

/// Maps a working-tree relative path to its flat storage key.
pub fn escape_path(path: &Vec<u8>) -> (r: Vec<u8>)
    ensures
        r@ == spec_escape_path(path@),
{
    let mut out: Vec<u8> = Vec::new();
    let mut i: usize = 0;
    proof {
        assert(path@.skip(0) =~= path@);
        assert(out@ + spec_escape_path(path@.skip(0)) =~= spec_escape_path(path@));
    }
    while i < path.len()
        invariant
            i <= path.len(),
            out@ + spec_escape_path(path@.skip(i as int)) == spec_escape_path(path@),
        decreases path.len() - i,
    {
        let ghost pre = out@;
        let ghost tail = path@.skip(i as int);
        proof {
            assert(tail[0] == path@[i as int]);
            assert(tail.drop_first() =~= path@.skip(i + 1));
        }
        let b = path[i];
        if b == 47u8 {
            out.push(95u8);
        } else if b == 95u8 {
            out.push(37u8);
            out.push(117u8);
        } else if b == 37u8 {
            out.push(37u8);
            out.push(112u8);
        } else {
            out.push(b);
        }
        i = i + 1;
        proof {
            assert(out@ =~= pre + spec_escape_byte(tail[0]));
            assert(spec_escape_path(tail) == spec_escape_byte(tail[0]) + spec_escape_path(
                path@.skip(i as int),
            ));
            assert(out@ + spec_escape_path(path@.skip(i as int)) =~= pre + spec_escape_path(
                tail,
            ));
        }
    }
    proof {
        assert(path@.skip(path@.len() as int) =~= Seq::<u8>::empty());
        assert(out@ =~= spec_escape_path(path@));
    }
    out
}

/// Maps a flat storage key back to its working-tree relative path.
pub fn unescape_path(key: &Vec<u8>) -> (r: Vec<u8>)
    ensures
        r@ == spec_unescape_path(key@),
{
    let mut out: Vec<u8> = Vec::new();
    let mut i: usize = 0;
    proof {
        assert(key@.skip(0) =~= key@);
        assert(out@ + spec_unescape_path(key@.skip(0)) =~= spec_unescape_path(key@));
    }
    while i < key.len()
        invariant
            i <= key.len(),
            out@ + spec_unescape_path(key@.skip(i as int)) == spec_unescape_path(key@),
        decreases key.len() - i,
    {
        let ghost pre = out@;
        let ghost tail = key@.skip(i as int);
        proof {
            assert(tail[0] == key@[i as int]);
            assert(tail.drop_first() =~= key@.skip(i + 1));
        }
        let b = key[i];
        if b == 95u8 {
            out.push(47u8);
            i = i + 1;
            proof {
                assert(spec_unescape_path(tail) == seq![separator_byte()] + spec_unescape_path(
                    key@.skip(i as int),
                ));
                assert(out@ =~= pre + seq![separator_byte()]);
            }
        } else if b == 37u8 && i + 1 < key.len() {
            proof {
                assert(tail.len() >= 2);
                assert(tail[1] == key@[i + 1]);
                assert(tail.skip(2) =~= key@.skip(i + 2));
            }
            let n = key[i + 1];
            if n == 117u8 {
                out.push(95u8);
                i = i + 2;
                proof {
                    assert(spec_unescape_path(tail) == seq![key_separator_byte()]
                        + spec_unescape_path(key@.skip(i as int)));
                    assert(out@ =~= pre + seq![key_separator_byte()]);
                }
            } else if n == 112u8 {
                out.push(37u8);
                i = i + 2;
                proof {
                    assert(spec_unescape_path(tail) == seq![escape_lead_byte()]
                        + spec_unescape_path(key@.skip(i as int)));
                    assert(out@ =~= pre + seq![escape_lead_byte()]);
                }
            } else {
                out.push(b);
                i = i + 1;
                proof {
                    assert(spec_unescape_path(tail) == seq![tail[0]] + spec_unescape_path(
                        key@.skip(i as int),
                    ));
                    assert(out@ =~= pre + seq![tail[0]]);
                }
            }
        } else {
            out.push(b);
            i = i + 1;
            proof {
                assert(spec_unescape_path(tail) == seq![tail[0]] + spec_unescape_path(
                    key@.skip(i as int),
                ));
                assert(out@ =~= pre + seq![tail[0]]);
            }
        }
        proof {
            assert(out@ + spec_unescape_path(key@.skip(i as int)) =~= pre + spec_unescape_path(
                tail,
            ));
        }
    }
    proof {
        assert(key@.skip(key@.len() as int) =~= Seq::<u8>::empty());
        assert(out@ =~= spec_unescape_path(key@));
    }
    out
}

} // verus!
