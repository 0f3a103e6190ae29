use vstd::prelude::*;

verus! {

/// Appends the bytes of `src` to `dst`.
pub fn append_bytes(dst: &mut Vec<u8>, src: &[u8])
    ensures
        final(dst)@ == old(dst)@ + src@,
{
    let ghost start = dst@;
    let mut i: usize = 0;
    while i < src.len()
        invariant
            i <= src.len(),
            dst@ == start + src@.take(i as int),
        decreases src.len() - i,
    {
        dst.push(src[i]);
        i = i + 1;
        assert(dst@ =~= start + src@.take(i as int));
    }
    assert(src@.take(i as int) =~= src@);
}

/// Whether `byte` occurs in `bytes`.
pub fn contains_byte(bytes: &[u8], byte: u8) -> (found: bool)
    ensures
        found == bytes@.contains(byte),
{
    let mut i: usize = 0;
    while i < bytes.len()
        invariant
            i <= bytes.len(),
            forall|j: int| 0 <= j < i ==> bytes@[j] != byte,
        decreases bytes.len() - i,
    {
        if bytes[i] == byte {
            assert(bytes@[i as int] == byte);
            return true;
        }
        i = i + 1;
    }
    false
}

/// The byte sequences held by a sequence of vectors.
pub open spec fn byte_seqs(v: Seq<Vec<u8>>) -> Seq<Seq<u8>> {
    v.map_values(|x: Vec<u8>| x@)
}

/// Whether two byte sequences are equal.
pub fn bytes_equal(a: &[u8], b: &[u8]) -> (equal: bool)
    ensures
        equal == (a@ == b@),
{
    if a.len() != b.len() {
        return false;
    }
    let mut i: usize = 0;
    while i < a.len()
        invariant
            i <= a.len(),
            a.len() == b.len(),
            forall|j: int| 0 <= j < i ==> a@[j] == b@[j],
        decreases a.len() - i,
    {
        if a[i] != b[i] {
            return false;
        }
        i = i + 1;
    }
    assert(a@ =~= b@);
    true
}

/// The pieces of `s` between the occurrences of `sep`, in order: `k` occurrences give `k + 1`
/// pieces, some of them possibly empty.
pub open spec fn split_bytes(s: Seq<u8>, sep: u8) -> Seq<Seq<u8>>
    decreases s.len(),
{
    if s.len() == 0 {
        seq![Seq::<u8>::empty()]
    } else {
        let pieces = split_bytes(s.drop_last(), sep);
        if s.last() == sep {
            pieces.push(Seq::<u8>::empty())
        } else {
            pieces.update(pieces.len() - 1, pieces.last().push(s.last()))
        }
    }
}

/// The pieces joined together, with `sep` between consecutive pieces.
pub open spec fn join_bytes(pieces: Seq<Seq<u8>>, sep: u8) -> Seq<u8>
    decreases pieces.len(),
{
    if pieces.len() == 0 {
        Seq::<u8>::empty()
    } else if pieces.len() == 1 {
        pieces[0]
    } else {
        join_bytes(pieces.drop_last(), sep).push(sep) + pieces.last()
    }
}

/// Splitting always yields at least one piece, and no piece holds the separator.
pub proof fn lemma_split_bytes_shape(s: Seq<u8>, sep: u8)
    ensures
        split_bytes(s, sep).len() >= 1,
        forall|i: int| 0 <= i < split_bytes(s, sep).len() ==> !(#[trigger] split_bytes(s, sep)[i]).contains(sep),
    decreases s.len(),
{
    if s.len() > 0 {
        lemma_split_bytes_shape(s.drop_last(), sep);
        let pieces = split_bytes(s.drop_last(), sep);
        if s.last() != sep {
            let last = pieces.last().push(s.last());
            assert forall|j: int| 0 <= j < last.len() implies last[j] != sep by {
                if j < last.len() - 1 {
                    assert(last[j] == pieces.last()[j]);
                }
            }
            assert(!last.contains(sep));
        }
    } else {
        assert(!Seq::<u8>::empty().contains(sep));
    }
}

/// Joining the pieces of a split gives the sequence back.
pub proof fn lemma_join_split(s: Seq<u8>, sep: u8)
    ensures
        join_bytes(split_bytes(s, sep), sep) == s,
    decreases s.len(),
{
    if s.len() > 0 {
        lemma_join_split(s.drop_last(), sep);
        lemma_split_bytes_shape(s.drop_last(), sep);
        let pieces = split_bytes(s.drop_last(), sep);
        if s.last() == sep {
            let np = pieces.push(Seq::<u8>::empty());
            assert(np.drop_last() =~= pieces);
            assert(join_bytes(np, sep) =~= s);
        } else {
            let np = pieces.update(pieces.len() - 1, pieces.last().push(s.last()));
            if pieces.len() == 1 {
                assert(join_bytes(np, sep) == np[0]);
                assert(np[0] =~= s);
            } else {
                assert(np.drop_last() =~= pieces.drop_last());
                assert(np.last() == pieces.last().push(s.last()));
                assert(join_bytes(pieces, sep) == join_bytes(pieces.drop_last(), sep).push(sep) + pieces.last());
                assert(join_bytes(np, sep) == join_bytes(np.drop_last(), sep).push(sep) + np.last());
                assert(s =~= s.drop_last().push(s.last()));
                assert(join_bytes(np, sep) =~= s);
            }
        }
    }
}

/// Splitting the join of pieces that do not hold the separator gives the pieces back.
pub proof fn lemma_split_join(pieces: Seq<Seq<u8>>, sep: u8)
    requires
        pieces.len() >= 1,
        forall|i: int| 0 <= i < pieces.len() ==> !(#[trigger] pieces[i]).contains(sep),
    ensures
        split_bytes(join_bytes(pieces, sep), sep) == pieces,
    decreases pieces.len(),
{
    if pieces.len() == 1 {
        lemma_split_no_sep(pieces[0], sep);
        assert(split_bytes(join_bytes(pieces, sep), sep) =~= pieces);
    } else {
        let init = pieces.drop_last();
        lemma_split_join(init, sep);
        let j = join_bytes(init, sep).push(sep);
        assert(split_bytes(j, sep) == split_bytes(join_bytes(init, sep), sep).push(Seq::<u8>::empty())) by {
            assert(j.drop_last() =~= join_bytes(init, sep));
        }
        lemma_split_append_no_sep(j, pieces.last(), sep);
        assert(split_bytes(join_bytes(pieces, sep), sep) =~= pieces);
    }
}

/// A sequence without the separator splits into itself alone.
pub proof fn lemma_split_no_sep(s: Seq<u8>, sep: u8)
    requires
        !s.contains(sep),
    ensures
        split_bytes(s, sep) == seq![s],
    decreases s.len(),
{
    if s.len() > 0 {
        assert(!s.drop_last().contains(sep)) by {
            if s.drop_last().contains(sep) {
                let k = choose|k: int| 0 <= k < s.drop_last().len() && s.drop_last()[k] == sep;
                assert(s[k] == sep);
            }
        }
        lemma_split_no_sep(s.drop_last(), sep);
        assert(s.last() != sep) by {
            assert(s[s.len() - 1] == s.last());
        }
        assert(s.drop_last().push(s.last()) =~= s);
        let pieces = split_bytes(s.drop_last(), sep);
        assert(split_bytes(s, sep) == pieces.update(pieces.len() - 1, pieces.last().push(s.last())));
        assert(split_bytes(s, sep) =~= seq![s]);
    } else {
        assert(s =~= Seq::<u8>::empty());
    }
}

/// Appending bytes without the separator extends the last piece.
pub proof fn lemma_split_append_no_sep(a: Seq<u8>, b: Seq<u8>, sep: u8)
    requires
        !b.contains(sep),
    ensures
        split_bytes(a + b, sep) == split_bytes(a, sep).update(
            split_bytes(a, sep).len() - 1,
            split_bytes(a, sep).last() + b,
        ),
    decreases b.len(),
{
    lemma_split_bytes_shape(a, sep);
    if b.len() == 0 {
        assert(a + b =~= a);
        assert(split_bytes(a, sep).last() + b =~= split_bytes(a, sep).last());
        assert(split_bytes(a, sep).update(split_bytes(a, sep).len() - 1, split_bytes(a, sep).last()) =~= split_bytes(a, sep));
    } else {
        let bi = b.drop_last();
        assert(!bi.contains(sep)) by {
            if bi.contains(sep) {
                let k = choose|k: int| 0 <= k < bi.len() && bi[k] == sep;
                assert(b[k] == sep);
            }
        }
        assert(b.last() != sep) by {
            assert(b[b.len() - 1] == b.last());
        }
        lemma_split_append_no_sep(a, bi, sep);
        assert((a + b).drop_last() =~= a + bi);
        assert((a + b).last() == b.last());
        let pa = split_bytes(a, sep);
        let p = split_bytes(a + bi, sep);
        assert(split_bytes(a + b, sep) == p.update(p.len() - 1, p.last().push(b.last())));
        assert((pa.last() + bi).push(b.last()) =~= pa.last() + b);
        assert(split_bytes(a + b, sep) =~= pa.update(pa.len() - 1, pa.last() + b));
    }
}

/// A copy of a vector of byte vectors.
pub fn copy_byte_vecs(v: &Vec<Vec<u8>>) -> (copy: Vec<Vec<u8>>)
    ensures
        byte_seqs(copy@) == byte_seqs(v@),
{
    let mut copy: Vec<Vec<u8>> = Vec::new();
    let mut i: usize = 0;
    while i < v.len()
        invariant
            i <= v.len(),
            copy@.len() == i,
            byte_seqs(copy@) == byte_seqs(v@).take(i as int),
        decreases v.len() - i,
    {
        let item = vstd::slice::slice_to_vec(v[i].as_slice());
        assert(item@ == v@[i as int]@);
        let ghost prev = copy@;
        copy.push(item);
        assert forall|j: int| 0 <= j < i + 1 implies #[trigger] byte_seqs(copy@)[j] == byte_seqs(v@)[j] by {
            if j < i {
                assert(copy@[j] == prev[j]);
                assert(byte_seqs(prev)[j] == byte_seqs(v@).take(i as int)[j]);
            }
        }
        i = i + 1;
        assert(byte_seqs(copy@) =~= byte_seqs(v@).take(i as int));
    }
    assert(byte_seqs(v@).take(i as int) =~= byte_seqs(v@));
    copy
}

/// Splits `bytes` at every occurrence of `sep`.
pub fn split_on(bytes: &[u8], sep: u8) -> (pieces: Vec<Vec<u8>>)
    ensures
        byte_seqs(pieces@) == split_bytes(bytes@, sep),
{
    let mut pieces: Vec<Vec<u8>> = Vec::new();
    pieces.push(Vec::new());
    let mut i: usize = 0;
    assert(bytes@.take(0) =~= Seq::<u8>::empty());
    assert(byte_seqs(pieces@) =~= split_bytes(bytes@.take(0), sep));
    while i < bytes.len()
        invariant
            i <= bytes.len(),
            pieces.len() >= 1,
            byte_seqs(pieces@) == split_bytes(bytes@.take(i as int), sep),
        decreases bytes.len() - i,
    {
        let ghost prev = byte_seqs(pieces@);
        assert(bytes@.take(i + 1).drop_last() =~= bytes@.take(i as int));
        if bytes[i] == sep {
            pieces.push(Vec::new());
            assert(byte_seqs(pieces@) =~= prev.push(Seq::<u8>::empty()));
        } else {
            let mut piece = pieces.pop().unwrap();
            piece.push(bytes[i]);
            pieces.push(piece);
            assert(byte_seqs(pieces@) =~= prev.update(prev.len() - 1, prev.last().push(bytes@[i as int])));
        }
        i = i + 1;
    }
    assert(bytes@.take(i as int) =~= bytes@);
    pieces
}

/// Joins the pieces, putting `sep` between consecutive ones.
pub fn join_on(pieces: &Vec<Vec<u8>>, sep: u8) -> (bytes: Vec<u8>)
    ensures
        bytes@ == join_bytes(byte_seqs(pieces@), sep),
{
    let mut bytes: Vec<u8> = Vec::new();
    let mut i: usize = 0;
    while i < pieces.len()
        invariant
            i <= pieces.len(),
            bytes@ == join_bytes(byte_seqs(pieces@).take(i as int), sep),
        decreases pieces.len() - i,
    {
        let ghost prev = byte_seqs(pieces@).take(i as int);
        let ghost next = byte_seqs(pieces@).take(i + 1);
        assert(next.drop_last() =~= prev);
        if i > 0 {
            bytes.push(sep);
        }
        append_bytes(&mut bytes, pieces[i].as_slice());
        i = i + 1;
        assert(next.last() == pieces[i - 1]@);
        if i == 1 {
            assert(bytes@ =~= join_bytes(next, sep));
        } else {
            assert(bytes@ =~= join_bytes(next, sep));
        }
    }
    assert(byte_seqs(pieces@).take(i as int) =~= byte_seqs(pieces@));
    bytes
}

} // verus!
