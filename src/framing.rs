//! Length-prefixed framing of byte fields: each field is its length as a
//! little-endian 64-bit word followed by its bytes. Distinct field lists have
//! distinct framings, and a framing reads back to the fields it was made from.
use vstd::bytes::{
    lemma_auto_spec_u64_to_from_le_bytes, spec_u64_from_le_bytes, spec_u64_to_le_bytes,
    u64_from_le_bytes, u64_to_le_bytes,
};
use vstd::prelude::*;

verus! {

/// One framed field: its length as a word, then its bytes.
pub open spec fn field_bytes(f: Seq<u8>) -> Seq<u8> {
    spec_u64_to_le_bytes(f.len() as u64) + f
}

/// Framed fields one after another.
pub open spec fn fields_bytes(fs: Seq<Seq<u8>>) -> Seq<u8>
    decreases fs.len(),
{
    if fs.len() == 0 {
        Seq::empty()
    } else {
        fields_bytes(fs.drop_last()) + field_bytes(fs.last())
    }
}

/// Every field's length fits a word.
pub open spec fn framable(fs: Seq<Seq<u8>>) -> bool {
    forall|i: int| 0 <= i < fs.len() ==> (#[trigger] fs[i]).len() <= u64::MAX
}

/// The framing of a prefix of the fields is a prefix of the framing of all.
proof fn lemma_fields_bytes_prefix(fs: Seq<Seq<u8>>, j: int)
    requires
        0 <= j <= fs.len(),
    ensures
        fields_bytes(fs.take(j)).len() <= fields_bytes(fs).len(),
        fields_bytes(fs).subrange(0, fields_bytes(fs.take(j)).len() as int) == fields_bytes(
            fs.take(j),
        ),
    decreases fs.len(),
{
    if j == fs.len() {
        assert(fs.take(j) =~= fs);
        assert(fields_bytes(fs).subrange(0, fields_bytes(fs).len() as int) =~= fields_bytes(fs));
    } else {
        let shorter = fs.drop_last();
        assert(shorter.take(j) =~= fs.take(j));
        lemma_fields_bytes_prefix(shorter, j);
        let whole = fields_bytes(fs);
        let len = fields_bytes(fs.take(j)).len() as int;
        assert(whole.subrange(0, len) =~= fields_bytes(shorter).subrange(0, len));
    }
}

/// Where the framing of the first `j` fields ends at `pos`, the next field's
/// length word and bytes follow there.
proof fn lemma_next_field(fs: Seq<Seq<u8>>, j: int, pos: int, b: Seq<u8>, done: Seq<Seq<u8>>)
    requires
        framable(fs),
        fields_bytes(fs) == b,
        0 <= j < fs.len(),
        done == fs.take(j),
        0 <= pos <= b.len(),
        b.subrange(0, pos) == fields_bytes(done),
    ensures
        pos + 8 + fs[j].len() <= b.len(),
        b.subrange(pos, pos + 8) == spec_u64_to_le_bytes(fs[j].len() as u64),
        b.subrange(pos + 8, pos + 8 + fs[j].len()) == fs[j],
{
    lemma_auto_spec_u64_to_from_le_bytes();
    lemma_fields_bytes_prefix(fs, j + 1);
    let upto = fields_bytes(fs.take(j + 1));
    assert(fs.take(j + 1).drop_last() =~= fs.take(j));
    assert(fs.take(j + 1).last() == fs[j]);
    assert(upto == fields_bytes(done) + field_bytes(fs[j]));
    let f = fs[j];
    assert(b.subrange(0, pos).len() == pos);
    let base = fields_bytes(done).len() as int;
    assert(pos == base);
    assert(b.subrange(0, upto.len() as int) == upto);
    let lw = spec_u64_to_le_bytes(f.len() as u64);
    assert(lw.len() == 8);
    assert(field_bytes(f).len() == 8 + f.len());
    assert(upto.len() == base + 8 + f.len());
    let head = b.subrange(pos, pos + 8);
    let body = b.subrange(pos + 8, pos + 8 + f.len());
    assert forall|c: int| 0 <= c < 8 implies #[trigger] head[c] == lw[c] by {
        assert(head[c] == b[pos + c]);
        assert(b[pos + c] == upto[base + c]);
        assert(upto[base + c] == field_bytes(f)[c]);
    }
    assert forall|c: int| 0 <= c < f.len() implies #[trigger] body[c] == f[c] by {
        assert(body[c] == b[pos + 8 + c]);
        assert(b[pos + 8 + c] == upto[base + 8 + c]);
        assert(upto[base + 8 + c] == field_bytes(f)[8 + c]);
    }
    assert(b.subrange(pos, pos + 8) =~= spec_u64_to_le_bytes(f.len() as u64));
    assert(b.subrange(pos + 8, pos + 8 + f.len()) =~= f);
}

/// Two framings that agree on their first `j` fields and are the same bytes
/// agree on those fields.
pub(crate) proof fn lemma_fields_agree(fs: Seq<Seq<u8>>, gs: Seq<Seq<u8>>, j: int)
    requires
        fs.len() == gs.len(),
        framable(fs),
        framable(gs),
        fields_bytes(fs) == fields_bytes(gs),
        0 <= j <= fs.len(),
    ensures
        fs.take(j) == gs.take(j),
    decreases j,
{
    lemma_auto_spec_u64_to_from_le_bytes();
    if j > 0 {
        lemma_fields_agree(fs, gs, j - 1);
        let b = fields_bytes(fs);
        let done = fs.take(j - 1);
        lemma_fields_bytes_prefix(fs, j - 1);
        lemma_fields_bytes_prefix(gs, j - 1);
        let pos = fields_bytes(done).len() as int;
        lemma_next_field(fs, j - 1, pos, b, done);
        lemma_next_field(gs, j - 1, pos, b, done);
        let lf = fs[j - 1].len() as u64;
        let lg = gs[j - 1].len() as u64;
        assert(spec_u64_from_le_bytes(spec_u64_to_le_bytes(lf)) == lf);
        assert(spec_u64_from_le_bytes(spec_u64_to_le_bytes(lg)) == lg);
        assert(fs[j - 1] == gs[j - 1]);
        assert(fs.take(j) =~= fs.take(j - 1).push(fs[j - 1]));
        assert(gs.take(j) =~= gs.take(j - 1).push(gs[j - 1]));
    } else {
        assert(fs.take(0) =~= gs.take(0));
    }
}

/// Append `src` to `out`.
pub fn append_bytes(out: &mut Vec<u8>, src: &Vec<u8>)
    ensures
        final(out)@ == old(out)@ + src@,
{
    let ghost start = out@;
    let mut i: usize = 0;
    while i < src.len()
        invariant
            i <= src.len(),
            out@ == start + src@.take(i as int),
        decreases src.len() - i,
    {
        out.push(src[i]);
        i = i + 1;
        assert(out@ =~= start + src@.take(i as int));
    }
    assert(src@.take(src.len() as int) =~= src@);
}

/// Append one framed field.
pub fn push_field(out: &mut Vec<u8>, f: &Vec<u8>)
    ensures
        final(out)@ == old(out)@ + field_bytes(f@),
{
    let len = u64_to_le_bytes(f.len() as u64);
    append_bytes(out, &len);
    append_bytes(out, f);
    assert(final(out)@ =~= old(out)@ + field_bytes(f@));
}

/// Read the `count` framed fields that make up all of `b`.
pub fn decode_fields(b: &Vec<u8>, count: usize) -> (r: Option<Vec<Vec<u8>>>)
    ensures
        r matches Some(fs) ==> fs@.len() == count && fields_bytes(fs@.map_values(|f: Vec<u8>| f@)) == b@,
        forall|fs: Seq<Seq<u8>>|
            fs.len() == count && framable(fs) && #[trigger] fields_bytes(fs) == b@ ==> (r matches Some(
                out,
            ) && out@.map_values(|f: Vec<u8>| f@) == fs),
{
    let total = b.len();
    assert(b@.len() == total);
    let mut out: Vec<Vec<u8>> = Vec::new();
    let mut pos: usize = 0;
    let mut j: usize = 0;
    proof {
        lemma_auto_spec_u64_to_from_le_bytes();
    }
    assert(b@.subrange(0, 0) =~= fields_bytes(Seq::<Seq<u8>>::empty()));
    assert(out@.map_values(|f: Vec<u8>| f@) =~= Seq::<Seq<u8>>::empty());
    while j < count
        invariant
            pos <= b@.len(),
            b@.len() <= usize::MAX,
            j <= count,
            out@.len() == j,
            b@.subrange(0, pos as int) == fields_bytes(out@.map_values(|f: Vec<u8>| f@)),
            forall|fs: Seq<Seq<u8>>|
                fs.len() == count && framable(fs) && #[trigger] fields_bytes(fs) == b@ ==> out@.map_values(
                    |f: Vec<u8>| f@,
                ) == fs.take(j as int),
        decreases count - j,
    {
        let ghost done = out@.map_values(|f: Vec<u8>| f@);
        if b.len() - pos < 8 {
            proof {
                assert forall|fs: Seq<Seq<u8>>|
                    fs.len() == count && framable(fs) && #[trigger] fields_bytes(fs) == b@ implies false by {
                    lemma_next_field(fs, j as int, pos as int, b@, done);
                }
            }
            return None;
        }
        let mut word: Vec<u8> = Vec::new();
        let mut k: usize = 0;
        while k < 8
            invariant
                pos + 8 <= b@.len(),
                b@.len() <= usize::MAX,
                k <= 8,
                word@ == b@.subrange(pos as int, pos + k),
            decreases 8 - k,
        {
            word.push(b[pos + k]);
            k = k + 1;
            assert(word@ =~= b@.subrange(pos as int, pos + k));
        }
        let len = u64_from_le_bytes(word.as_slice());
        if len > (b.len() - pos - 8) as u64 {
            proof {
                assert forall|fs: Seq<Seq<u8>>|
                    fs.len() == count && framable(fs) && #[trigger] fields_bytes(fs) == b@ implies false by {
                    lemma_next_field(fs, j as int, pos as int, b@, done);
                    lemma_auto_spec_u64_to_from_le_bytes();
                }
            }
            return None;
        }
        let start = pos + 8;
        let end = start + len as usize;
        let mut field: Vec<u8> = Vec::new();
        let mut c: usize = start;
        while c < end
            invariant
                start <= c <= end,
                end <= b@.len(),
                field@ == b@.subrange(start as int, c as int),
            decreases end - c,
        {
            field.push(b[c]);
            c = c + 1;
            assert(field@ =~= b@.subrange(start as int, c as int));
        }
        out.push(field);
        proof {
            lemma_auto_spec_u64_to_from_le_bytes();
            let now = out@.map_values(|f: Vec<u8>| f@);
            assert(now =~= done.push(field@));
            assert(now.drop_last() =~= done);
            assert(spec_u64_to_le_bytes(spec_u64_from_le_bytes(word@)) == word@);
            assert(field@.len() == len);
            assert(b@.subrange(0, end as int) =~= b@.subrange(0, pos as int) + field_bytes(field@));
            assert forall|fs: Seq<Seq<u8>>|
                fs.len() == count && framable(fs) && #[trigger] fields_bytes(fs) == b@ implies now
                == fs.take(j + 1) by {
                lemma_next_field(fs, j as int, pos as int, b@, done);
                assert(fs.take(j + 1) =~= fs.take(j as int).push(fs[j as int]));
            }
        }
        pos = end;
        j = j + 1;
    }
    if pos != b.len() {
        proof {
            assert forall|fs: Seq<Seq<u8>>|
                fs.len() == count && framable(fs) && #[trigger] fields_bytes(fs) == b@ implies false by {
                assert(fs.take(j as int) =~= fs);
                assert(b@.subrange(0, pos as int).len() == fields_bytes(fs).len());
            }
        }
        return None;
    }
    assert(b@.subrange(0, pos as int) =~= b@);
    Some(out)
}


} // verus!
