//! Domain-name codec: length-prefixed labels on the wire, dotted text in
//! memory, with the DNS compression-pointer scheme on decode.
//!
//! A pointer is a length byte whose two high bits are both set; its low six
//! bits and the following byte form a 14-bit absolute offset. To rule out
//! cycles, a pointer must target an offset strictly before the start of the
//! name segment being decoded; each jump therefore moves strictly backwards,
//! and decoding terminates on every input.

use vstd::prelude::*;

use crate::DnsError;

verus! {

/// The labels of a decoded name, each one a byte sequence.
pub type SpecLabels = Seq<Seq<u8>>;

/// The index of the first `.` in `s`, or `s.len()` when there is none.
pub open spec fn first_dot(s: Seq<u8>) -> nat
    decreases s.len(),
{
    if s.len() == 0 {
        0
    } else if s.first() == 46u8 {
        0
    } else {
        1 + first_dot(s.drop_first())
    }
}

/// The labels of a dotted name: the maximal `.`-free pieces, in order.
/// An empty input yields one empty label, as splitting does.
pub open spec fn spec_split_labels(s: Seq<u8>) -> SpecLabels
    decreases s.len(),
{
    let i = first_dot(s) as int;
    if i >= s.len() {
        seq![s]
    } else {
        seq![s.take(i)] + spec_split_labels(s.skip(i + 1))
    }
}

/// The dotted form of a label sequence: the labels joined by `.`.
pub open spec fn spec_dotted(ls: SpecLabels) -> Seq<u8>
    decreases ls.len(),
{
    if ls.len() == 0 {
        Seq::empty()
    } else if ls.len() == 1 {
        ls.first()
    } else {
        ls.first() + seq![46u8] + spec_dotted(ls.drop_first())
    }
}

/// Whether every label fits a 6-bit length field.
pub open spec fn labels_encodable(ls: SpecLabels) -> bool {
    forall|i: int| 0 <= i < ls.len() ==> #[trigger] ls[i].len() <= 63
}

/// The wire encoding of a label sequence: each label preceded by its length
/// byte, then a zero terminator.
pub open spec fn spec_encode_labels(ls: SpecLabels) -> Seq<u8>
    decreases ls.len(),
{
    if ls.len() == 0 {
        seq![0u8]
    } else {
        seq![ls.first().len() as u8] + ls.first() + spec_encode_labels(ls.drop_first())
    }
}

/// The labels decoded from `buf` starting at `pos`, with the position of the
/// first byte after the name (after the pointer bytes when the name ends in
/// a pointer). `limit` is the bound on pointer targets: a pointer must aim
/// strictly below it, and a jump lowers it to the target, so decoding always
/// terminates. Reads past the end of the buffer fail with `Truncated`; a
/// length byte in 64..=191 and a pointer at or past `limit` fail with
/// `MalformedName`.
pub open spec fn spec_decode_labels(buf: Seq<u8>, pos: int, limit: int) -> Result<
    (SpecLabels, int),
    DnsError,
>
    decreases limit, buf.len() - pos,
{
    if pos < 0 || pos >= buf.len() || limit < 0 {
        Err(DnsError::Truncated)
    } else {
        let len = buf[pos];
        if len == 0 {
            Ok((Seq::empty(), pos + 1))
        } else if len >= 192 {
            if pos + 2 > buf.len() {
                Err(DnsError::Truncated)
            } else {
                let target = (len - 192) * 256 + buf[pos + 1];
                if target >= limit {
                    Err(DnsError::MalformedName)
                } else {
                    match spec_decode_labels(buf, target, target) {
                        Ok((ls, _)) => Ok((ls, pos + 2)),
                        Err(e) => Err(e),
                    }
                }
            }
        } else if len > 63 {
            Err(DnsError::MalformedName)
        } else if pos + 1 + len > buf.len() {
            Err(DnsError::Truncated)
        } else {
            match spec_decode_labels(buf, pos + 1 + len, limit) {
                Ok((ls, np)) => Ok((seq![buf.subrange(pos + 1, pos + 1 + len)] + ls, np)),
                Err(e) => Err(e),
            }
        }
    }
}

/// Every label decoded from the wire has between 1 and 63 bytes: a zero
/// length byte is the terminator and larger values are pointers or rejected.
pub proof fn lemma_decoded_labels_bounded(buf: Seq<u8>, pos: int, limit: int)
    ensures
        spec_decode_labels(buf, pos, limit) matches Ok((ls, np)) ==> forall|i: int|
            0 <= i < ls.len() ==> 1 <= (#[trigger] ls[i]).len() <= 63,
    decreases limit, buf.len() - pos,
{
    if 0 <= pos < buf.len() && limit >= 0 {
        let len = buf[pos];
        if len == 0 {
        } else if len >= 192 {
            if pos + 2 <= buf.len() {
                let target = (len - 192) * 256 + buf[pos + 1];
                if target < limit {
                    lemma_decoded_labels_bounded(buf, target, target);
                }
            }
        } else if len <= 63 && pos + 1 + len <= buf.len() {
            lemma_decoded_labels_bounded(buf, pos + 1 + len, limit);
        }
    }
}

/// The dotted form of a sequence of nonempty labels is empty only when the
/// sequence itself is.
pub proof fn lemma_dotted_nonempty(ls: SpecLabels)
    requires
        forall|i: int| 0 <= i < ls.len() ==> 1 <= (#[trigger] ls[i]).len(),
        ls.len() > 0,
    ensures
        spec_dotted(ls).len() > 0,
{
}

/// `first_dot` is exactly the position of the first `.`: no byte before it
/// is a `.`, and either it is the whole length or the byte there is a `.`.
pub proof fn lemma_first_dot_characterization(s: Seq<u8>, k: int)
    requires
        0 <= k <= s.len(),
        forall|j: int| 0 <= j < k ==> s[j] != 46u8,
        k == s.len() || s[k] == 46u8,
    ensures
        first_dot(s) == k,
    decreases s.len(),
{
    if s.len() == 0 {
    } else if s.first() == 46u8 {
    } else {
        lemma_first_dot_characterization(s.drop_first(), k - 1);
    }
}

/// `first_dot` lies within the name, no byte before it is a `.`, and the
/// byte at it (when it is not the whole length) is a `.`.
pub proof fn lemma_first_dot_bounds(s: Seq<u8>)
    ensures
        first_dot(s) <= s.len(),
        first_dot(s) < s.len() ==> s[first_dot(s) as int] == 46u8,
        forall|j: int| 0 <= j < first_dot(s) ==> s[j] != 46u8,
    decreases s.len(),
{
    if s.len() > 0 && s.first() != 46u8 {
        lemma_first_dot_bounds(s.drop_first());
        assert forall|j: int| 0 <= j < first_dot(s) implies s[j] != 46u8 by {
            if j > 0 {
                assert(s.drop_first()[j - 1] == s[j]);
            }
        }
    }
}

/// Joining the labels of a dotted name with `.` yields the name again,
/// whatever the name: splitting loses nothing.
pub proof fn lemma_dotted_split(s: Seq<u8>)
    ensures
        spec_dotted(spec_split_labels(s)) == s,
    decreases s.len(),
{
    lemma_first_dot_bounds(s);
    let fd = first_dot(s) as int;
    if fd >= s.len() {
        assert(spec_dotted(seq![s]) == s);
    } else {
        lemma_dotted_split(s.skip(fd + 1));
        let rest = spec_split_labels(s.skip(fd + 1));
        let ls = seq![s.take(fd)] + rest;
        assert(rest.len() >= 1);
        assert(ls.drop_first() =~= rest);
        assert(spec_dotted(ls) == s.take(fd) + seq![46u8] + spec_dotted(rest));
        assert(s.take(fd) + seq![46u8] + s.skip(fd + 1) =~= s);
    }
}

/// Decoding an encoded label sequence from any surrounding buffer yields the
/// labels again and stops right after the terminator, as long as every label
/// has between 1 and 63 bytes. Encoding emits no pointers, so any pointer
/// bound serves.
pub proof fn lemma_decode_encode(ls: SpecLabels, prefix: Seq<u8>, suffix: Seq<u8>, limit: int)
    requires
        forall|i: int| 0 <= i < ls.len() ==> 1 <= (#[trigger] ls[i]).len() <= 63,
        limit >= 0,
    ensures
        spec_decode_labels(
            prefix + spec_encode_labels(ls) + suffix,
            prefix.len() as int,
            limit,
        ) == Ok::<_, DnsError>((ls, prefix.len() + spec_encode_labels(ls).len() as int)),
    decreases ls.len(),
{
    let enc = spec_encode_labels(ls);
    let buf = prefix + enc + suffix;
    let pos = prefix.len() as int;
    if ls.len() == 0 {
        assert(enc == seq![0u8]);
        assert(buf[pos] == 0u8);
        assert(ls =~= Seq::<Seq<u8>>::empty());
        assert(spec_decode_labels(buf, pos, limit) == Ok::<_, DnsError>((ls, pos + 1)));
    } else {
        let l = ls.first();
        let rest = ls.drop_first();
        assert(ls[0] == l);
        let enc_rest = spec_encode_labels(rest);
        assert(enc == seq![l.len() as u8] + l + enc_rest);
        assert(enc_rest.len() >= 1);
        assert(buf[pos] == l.len() as u8);
        assert(1 <= l.len() as u8 <= 63);
        let llen = (l.len() as u8) as int;
        assert(llen == l.len());
        assert(pos + 1 + llen <= buf.len());
        assert(buf.subrange(pos + 1, pos + 1 + llen) =~= l);
        let prefix2 = prefix + seq![l.len() as u8] + l;
        assert forall|i: int| 0 <= i < rest.len() implies 1 <= (#[trigger] rest[i]).len() <= 63 by {
            assert(rest[i] == ls[i + 1]);
        }
        lemma_decode_encode(rest, prefix2, suffix, limit);
        assert(buf =~= prefix2 + enc_rest + suffix);
        assert(prefix2.len() == pos + 1 + llen);
        assert(spec_decode_labels(buf, pos + 1 + llen, limit) == Ok::<_, DnsError>(
            (rest, prefix2.len() + enc_rest.len() as int),
        ));
        assert(seq![l] + rest =~= ls);
        assert(prefix2.len() + enc_rest.len() == prefix.len() + enc.len());
    }
}

/// Round trip of the name codec: splitting a dotted name whose labels each
/// have 1 to 63 bytes, encoding the labels, and decoding the result from
/// offset 0 yields exactly those labels back, whose dotted form is the
/// name itself, with the final position just past the terminator.
pub proof fn lemma_name_round_trip(name: Seq<u8>)
    requires
        forall|i: int|
            0 <= i < spec_split_labels(name).len() ==> 1 <= (#[trigger] spec_split_labels(
                name,
            )[i]).len() <= 63,
    ensures
        spec_dotted(spec_split_labels(name)) == name,
        spec_decode_labels(spec_encode_labels(spec_split_labels(name)), 0, 0) == Ok::<
            _,
            DnsError,
        >((spec_split_labels(name), spec_encode_labels(spec_split_labels(name)).len() as int)),
{
    lemma_dotted_split(name);
    let ls = spec_split_labels(name);
    let enc = spec_encode_labels(ls);
    lemma_decode_encode(ls, Seq::empty(), Seq::empty(), 0);
    assert(Seq::<u8>::empty() + enc + Seq::<u8>::empty() =~= enc);
}

/// Encodes the dotted name `name` as length-prefixed labels with a zero
/// terminator; fails with `LabelTooLong` exactly when some label is more
/// than 63 bytes.
pub fn encode_dns_name(name: &Vec<u8>) -> (r: Result<Vec<u8>, DnsError>)
    ensures
        match r {
            Ok(out) => labels_encodable(spec_split_labels(name@)) && out@ == spec_encode_labels(
                spec_split_labels(name@),
            ),
            Err(e) => e == DnsError::LabelTooLong && !labels_encodable(spec_split_labels(name@)),
        },
{
    let r = encode_labels_from(name, 0);
    proof {
        assert(name@.skip(0) =~= name@);
    }
    r
}

/// Encodes the labels of `name` from byte position `start` on, one label per
/// call.
fn encode_labels_from(name: &Vec<u8>, start: usize) -> (r: Result<Vec<u8>, DnsError>)
    requires
        start <= name@.len(),
    ensures
        match r {
            Ok(out) => labels_encodable(spec_split_labels(name@.skip(start as int))) && out@
                == spec_encode_labels(spec_split_labels(name@.skip(start as int))),
            Err(e) => e == DnsError::LabelTooLong && !labels_encodable(
                spec_split_labels(name@.skip(start as int)),
            ),
        },
    decreases name@.len() - start,
{
    let n: usize = name.len();
    let ghost tail = name@.skip(start as int);
    let mut i: usize = start;
    while i < n && name[i] != 46
        invariant
            start <= i <= n,
            n == name@.len(),
            forall|j: int| start <= j < i ==> name@[j] != 46u8,
        decreases n - i,
    {
        i = i + 1;
    }
    proof {
        assert forall|j: int| 0 <= j < i - start implies tail[j] != 46u8 by {
            assert(tail[j] == name@[start + j]);
        }
        if i < n {
            assert(tail[i - start] == name@[i as int]);
        }
        lemma_first_dot_characterization(tail, i - start);
    }
    if i - start > 63 {
        proof {
            let ls = spec_split_labels(tail);
            assert(ls[0].len() > 63);
            assert(!labels_encodable(ls));
        }
        return Err(DnsError::LabelTooLong);
    }
    let mut out: Vec<u8> = Vec::new();
    out.push((i - start) as u8);
    let mut j: usize = start;
    while j < i
        invariant
            start <= j <= i <= n,
            n == name@.len(),
            i - start <= 63,
            out@ == seq![(i - start) as u8] + name@.subrange(start as int, j as int),
        decreases i - j,
    {
        out.push(name[j]);
        j = j + 1;
        assert(out@ =~= seq![(i - start) as u8] + name@.subrange(start as int, j as int));
    }
    let ghost label = name@.subrange(start as int, i as int);
    proof {
        assert(label =~= tail.take(i - start));
    }
    if i == n {
        out.push(0);
        proof {
            assert(spec_split_labels(tail) =~= seq![tail]);
            assert(tail =~= label);
            assert(seq![label].drop_first() =~= Seq::<Seq<u8>>::empty());
            assert(spec_encode_labels(Seq::<Seq<u8>>::empty()) == seq![0u8]);
            assert(out@ =~= spec_encode_labels(seq![label]));
        }
        Ok(out)
    } else {
        let ghost rest_tail = name@.skip(i as int + 1);
        proof {
            assert(tail.skip(i - start + 1) =~= rest_tail);
            assert(spec_split_labels(tail) == seq![label] + spec_split_labels(rest_tail));
        }
        match encode_labels_from(name, i + 1) {
            Ok(mut rest) => {
                let ghost rest_ls = spec_split_labels(rest_tail);
                out.append(&mut rest);
                proof {
                    assert((seq![label] + rest_ls).drop_first() =~= rest_ls);
                    assert(out@ =~= spec_encode_labels(seq![label] + rest_ls));
                }
                Ok(out)
            },
            Err(e) => {
                proof {
                    let rest_ls = spec_split_labels(rest_tail);
                    let ls = spec_split_labels(tail);
                    let k = choose|k: int|
                        0 <= k < rest_ls.len() && !(#[trigger] rest_ls[k].len() <= 63);
                    assert(ls[k + 1] == rest_ls[k]);
                    assert(!labels_encodable(ls));
                }
                Err(e)
            },
        }
    }
}

/// Decodes the (possibly compressed) name stored at `pos`, returning its
/// dotted text together with the position of the first byte after the name
/// field. Pointer targets must lie strictly before `pos`.
pub fn decord_name(buf: &Vec<u8>, pos: usize) -> (r: Result<(Vec<u8>, usize), DnsError>)
    ensures
        match r {
            Ok((name, np)) => spec_decode_labels(buf@, pos as int, pos as int) matches Ok(
                (ls, snp),
            ) && name@ == spec_dotted(ls) && np == snp,
            Err(e) => spec_decode_labels(buf@, pos as int, pos as int) == Err::<
                (SpecLabels, int),
                _,
            >(e),
        },
{
    decode_name_rec(buf, pos, pos)
}

/// Decodes the compression pointer stored at `pos`: jumps to the 14-bit
/// offset held in its low bits and decodes the name found there, with the
/// target as the new bound on further pointers. Returns the dotted name and
/// `pos + 2`.
pub fn decord_compressed_name(buf: &Vec<u8>, pos: usize, limit: usize) -> (r: Result<
    (Vec<u8>, usize),
    DnsError,
>)
    requires
        pos < buf@.len(),
        buf@[pos as int] >= 192,
    ensures
        match r {
            Ok((name, np)) => spec_decode_labels(buf@, pos as int, limit as int) matches Ok(
                (ls, snp),
            ) && name@ == spec_dotted(ls) && np == snp,
            Err(e) => spec_decode_labels(buf@, pos as int, limit as int) == Err::<
                (SpecLabels, int),
                _,
            >(e),
        },
    decreases limit, buf@.len() - pos, 0int,
{
    let n: usize = buf.len();
    if pos + 1 >= n {
        return Err(DnsError::Truncated);
    }
    let target: usize = (buf[pos] - 192) as usize * 256 + buf[pos + 1] as usize;
    if target >= limit {
        return Err(DnsError::MalformedName);
    }
    match decode_name_rec(buf, target, target) {
        Ok((name, _)) => Ok((name, pos + 2)),
        Err(e) => Err(e),
    }
}

/// Decodes one name, label by label, with `limit` as the bound on pointer
/// targets.
fn decode_name_rec(buf: &Vec<u8>, pos: usize, limit: usize) -> (r: Result<
    (Vec<u8>, usize),
    DnsError,
>)
    ensures
        match r {
            Ok((name, np)) => spec_decode_labels(buf@, pos as int, limit as int) matches Ok(
                (ls, snp),
            ) && name@ == spec_dotted(ls) && np == snp,
            Err(e) => spec_decode_labels(buf@, pos as int, limit as int) == Err::<
                (SpecLabels, int),
                _,
            >(e),
        },
    decreases limit, buf@.len() - pos, 1int,
{
    let n: usize = buf.len();
    if pos >= n {
        return Err(DnsError::Truncated);
    }
    let len = buf[pos];
    if len == 0 {
        return Ok((Vec::new(), pos + 1));
    }
    if len >= 192 {
        return decord_compressed_name(buf, pos, limit);
    }
    if len > 63 {
        return Err(DnsError::MalformedName);
    }
    let llen = len as usize;
    if llen > n - pos - 1 {
        return Err(DnsError::Truncated);
    }
    let mut name: Vec<u8> = Vec::new();
    let end: usize = pos + 1 + llen;
    let mut j: usize = pos + 1;
    while j < end
        invariant
            pos + 1 <= j <= end,
            end == pos + 1 + llen,
            end <= buf@.len(),
            name@ == buf@.subrange(pos + 1, j as int),
        decreases end - j,
    {
        name.push(buf[j]);
        j = j + 1;
        assert(name@ =~= buf@.subrange(pos + 1, j as int));
    }
    let ghost label = buf@.subrange(pos as int + 1, pos as int + 1 + llen as int);
    match decode_name_rec(buf, pos + 1 + llen, limit) {
        Ok((mut rest, np)) => {
            let ghost rest_ls = spec_decode_labels(
                buf@,
                pos as int + 1 + llen as int,
                limit as int,
            ).unwrap().0;
            proof {
                lemma_decoded_labels_bounded(buf@, pos as int + 1 + llen as int, limit as int);
                if rest_ls.len() > 0 {
                    lemma_dotted_nonempty(rest_ls);
                }
            }
            if rest.len() > 0 {
                name.push(46);
                name.append(&mut rest);
                assert(name@ =~= spec_dotted(seq![label] + rest_ls)) by {
                    assert((seq![label] + rest_ls).drop_first() =~= rest_ls);
                }
            } else {
                assert(name@ =~= spec_dotted(seq![label] + rest_ls));
            }
            Ok((name, np))
        },
        Err(e) => Err(e),
    }
}

} // verus!
