//! The ignore rules of the path enumerator: which patterns an ignore file
//! holds, and whether a name matches one.

use vstd::prelude::*;

use crate::util::{bytes_eq, clone_bytes};

verus! {

/// The byte that ends a line in an ignore file.
pub open spec fn newline_byte() -> u8 {
    10u8
}

/// The byte that opens a comment line in an ignore file.
pub open spec fn comment_byte() -> u8 {
    35u8
}

/// The lines of a byte text, split on the newline byte.  Splitting never
/// yields an empty sequence: a text without newlines is one line, and every
/// newline separates two (possibly empty) lines.
pub open spec fn spec_split_lines(s: Seq<u8>) -> Seq<Seq<u8>>
    decreases s.len(),
{
    if s.len() == 0 {
        seq![Seq::<u8>::empty()]
    } else if s[0] == newline_byte() {
        seq![Seq::<u8>::empty()] + spec_split_lines(s.drop_first())
    } else {
        let rest = spec_split_lines(s.drop_first());
        seq![seq![s[0]] + rest[0]] + rest.drop_first()
    }
}

/// Splitting yields at least one line.
pub proof fn lemma_split_lines_nonempty(s: Seq<u8>)
    ensures
        spec_split_lines(s).len() > 0,
    decreases s.len(),
{
    if s.len() > 0 {
        lemma_split_lines_nonempty(s.drop_first());
    }
}

/// True of the lines an ignore file keeps: non-empty and not a comment.
pub open spec fn spec_ignore_keep(l: Seq<u8>) -> bool {
    l.len() > 0 && l[0] != comment_byte()
}

/// The ignore patterns held in an ignore file's bytes: its lines, dropping
/// empty lines and comment lines.
pub open spec fn spec_ignore_lines(s: Seq<u8>) -> Seq<Seq<u8>> {
    spec_split_lines(s).filter(|l: Seq<u8>| spec_ignore_keep(l))
}

/// Splits an ignore file's bytes into lines and keeps the patterns: every
/// line that is neither empty nor a comment, in file order.
pub fn parse_ignore_lines(content: &Vec<u8>) -> (r: Vec<Vec<u8>>)
    ensures
        r@.map_values(|l: Vec<u8>| l@) == spec_ignore_lines(content@),
{
    let ghost s = content@;
    // first pass: split on newlines
    let mut lines: Vec<Vec<u8>> = Vec::new();
    let mut current: Vec<u8> = Vec::new();
    let mut i: usize = 0;
    proof {
        assert(s.skip(0) =~= s);
    }
    while i < content.len()
        invariant
            i <= content.len(),
            s == content@,
            spec_split_lines(s) == lines@.map_values(|l: Vec<u8>| l@) + (seq![
                current@ + spec_split_lines(s.skip(i as int))[0],
            ] + spec_split_lines(s.skip(i as int)).drop_first()),
        decreases content.len() - i,
    {
        let ghost tail = s.skip(i as int);
        proof {
            assert(tail[0] == s[i as int]);
            assert(tail.drop_first() =~= s.skip(i + 1));
            lemma_split_lines_nonempty(s.skip(i + 1));
        }
        let ghost cur0 = current@;
        let ghost done0 = lines@.map_values(|l: Vec<u8>| l@);
        let ghost rest = spec_split_lines(s.skip(i + 1));
        let b = content[i];
        if b == 10u8 {
            lines.push(current);
            current = Vec::new();
            proof {
                assert(spec_split_lines(tail) == seq![Seq::<u8>::empty()] + rest);
                assert(spec_split_lines(tail)[0] =~= Seq::<u8>::empty());
                assert(cur0 + spec_split_lines(tail)[0] =~= cur0);
                assert(spec_split_lines(tail).drop_first() =~= rest);
                assert(lines@.map_values(|l: Vec<u8>| l@) =~= done0.push(cur0));
                assert(rest == seq![rest[0]] + rest.drop_first());
                assert(spec_split_lines(s) =~= lines@.map_values(|l: Vec<u8>| l@) + (seq![
                    current@ + rest[0],
                ] + rest.drop_first()));
            }
        } else {
            current.push(b);
            proof {
                assert(spec_split_lines(tail) == seq![seq![s[i as int]] + rest[0]]
                    + rest.drop_first());
                assert(spec_split_lines(tail)[0] == seq![s[i as int]] + rest[0]);
                assert(spec_split_lines(tail).drop_first() =~= rest.drop_first());
                assert(current@ =~= cur0.push(b));
                assert(current@ + rest[0] =~= cur0 + spec_split_lines(tail)[0]);
                assert(lines@.map_values(|l: Vec<u8>| l@) == done0);
                assert(spec_split_lines(s) =~= lines@.map_values(|l: Vec<u8>| l@) + (seq![
                    current@ + rest[0],
                ] + rest.drop_first()));
            }
        }
        i = i + 1;
    }
    lines.push(current);
    proof {
        assert(s.skip(s.len() as int) =~= Seq::<u8>::empty());
        assert(spec_split_lines(Seq::<u8>::empty()) == seq![Seq::<u8>::empty()]);
        assert(lines@.map_values(|l: Vec<u8>| l@) =~= spec_split_lines(s));
    }
    // second pass: keep non-empty, non-comment lines
    let mut out: Vec<Vec<u8>> = Vec::new();
    let mut j: usize = 0;
    proof {
        reveal(Seq::filter);
        assert(lines@.map_values(|l: Vec<u8>| l@).take(0) =~= Seq::<Seq<u8>>::empty());
        assert(Seq::<Seq<u8>>::empty().filter(|l: Seq<u8>| spec_ignore_keep(l))
            =~= Seq::<Seq<u8>>::empty());
        assert(out@.map_values(|l: Vec<u8>| l@) =~= Seq::<Seq<u8>>::empty());
    }
    while j < lines.len()
        invariant
            j <= lines.len(),
            lines@.map_values(|l: Vec<u8>| l@) == spec_split_lines(s),
            out@.map_values(|l: Vec<u8>| l@) == lines@.map_values(|l: Vec<u8>| l@).take(
                j as int,
            ).filter(|l: Seq<u8>| spec_ignore_keep(l)),
        decreases lines.len() - j,
    {
        let ghost lv = lines@.map_values(|l: Vec<u8>| l@);
        proof {
            reveal(Seq::filter);
            assert(lv.take(j + 1).drop_last() =~= lv.take(j as int));
            assert(lv.take(j + 1).last() == lv[j as int]);
        }
        let keep = lines[j].len() > 0 && lines[j][0] != 35u8;
        proof {
            assert(keep == spec_ignore_keep(lv[j as int]));
        }
        if keep {
            let line = clone_bytes(&lines[j]);
            out.push(line);
            proof {
                reveal(Seq::filter);
                assert(out@.map_values(|l: Vec<u8>| l@) =~= lv.take(j + 1).filter(
                    |l: Seq<u8>| spec_ignore_keep(l),
                ));
            }
        } else {
            proof {
                reveal(Seq::filter);
                assert(out@.map_values(|l: Vec<u8>| l@) =~= lv.take(j + 1).filter(
                    |l: Seq<u8>| spec_ignore_keep(l),
                ));
            }
        }
        j = j + 1;
    }
    proof {
        let lv = lines@.map_values(|l: Vec<u8>| l@);
        assert(lv.take(lv.len() as int) =~= lv);
    }
    out
}

/// True exactly when `name` matches one of the ignore patterns (exact name
/// equality — patterns are whole names, not globs).
pub fn should_ignore(name: &Vec<u8>, ignores: &Vec<Vec<u8>>) -> (r: bool)
    ensures
        r == ignores@.map_values(|x: Vec<u8>| x@).contains(name@),
{
    let ghost pats = ignores@.map_values(|x: Vec<u8>| x@);
    let mut i: usize = 0;
    while i < ignores.len()
        invariant
            i <= ignores.len(),
            pats == ignores@.map_values(|x: Vec<u8>| x@),
            pats.len() == ignores@.len(),
            forall|k: int| 0 <= k < i ==> pats[k] != name@,
        decreases ignores.len() - i,
    {
        if bytes_eq(&ignores[i], name) {
            proof {
                assert(pats[i as int] == name@);
            }
            return true;
        }
        i = i + 1;
    }
    proof {
        if pats.contains(name@) {
            let k = choose|k: int| 0 <= k < pats.len() && pats[k] == name@;
            assert(false);
        }
    }
    false
}

} // verus!
