//! The domain-name codec.
//!
//! A name on the wire is a run of length-prefixed labels ended by a
//! zero byte, except that a label position may instead hold a 2-byte
//! compression pointer (top two bits set) whose low 14 bits give an
//! absolute offset into the whole message where the remaining
//! labels continue.  In memory a name is the labels joined by `.`
//! (byte 46).  Decoding keeps a set of offsets already entered through
//! pointers; a pointer to an offset already visited is malformed,
//! which bounds every decode.  The encoder never emits pointers.

use vstd::prelude::*;
use vstd::seq_lib::*;
use vstd::set_lib::*;

use crate::err::{DnsError, ErrorKind};

verus! {

/// The index of the first `.` in `s`, or `s.len()` if there is none.
pub open spec fn first_dot(s: Seq<u8>) -> int
    decreases s.len(),
{
    if s.len() == 0 {
        0
    } else if s[0] == 46 {
        0
    } else {
        1 + first_dot(s.drop_first())
    }
}

pub proof fn lemma_first_dot_bounds(s: Seq<u8>)
    ensures
        0 <= first_dot(s) <= s.len(),
        forall|i: int| 0 <= i < first_dot(s) ==> s[i] != 46,
        first_dot(s) < s.len() ==> s[first_dot(s)] == 46,
    decreases s.len(),
{
    if s.len() == 0 {
    } else if s[0] == 46 {
    } else {
        lemma_first_dot_bounds(s.drop_first());
        assert forall|i: int| 0 <= i < first_dot(s) implies s[i] != 46 by {
            if i >= 1 {
                assert(s.drop_first()[i - 1] == s[i]);
            }
        }
        if first_dot(s) < s.len() {
            assert(s.drop_first()[first_dot(s) - 1] == s[first_dot(s)]);
        }
    }
}

/// `first_dot` is the unique position with no dot before it and a dot
/// (or the end) at it.
pub proof fn lemma_first_dot_is(s: Seq<u8>, m: int)
    requires
        0 <= m <= s.len(),
        forall|i: int| 0 <= i < m ==> s[i] != 46,
        m < s.len() ==> s[m] == 46,
    ensures
        first_dot(s) == m,
    decreases s.len(),
{
    if s.len() == 0 {
    } else if m == 0 {
    } else {
        assert(s[0] != 46);
        assert forall|i: int| 0 <= i < m - 1 implies s.drop_first()[i] != 46 by {
            assert(s.drop_first()[i] == s[i + 1]);
        }
        if m - 1 < s.drop_first().len() {
            assert(s.drop_first()[m - 1] == s[m]);
        }
        lemma_first_dot_is(s.drop_first(), m - 1);
    }
}

/// A well-formed dotted name: a non-empty run of labels separated by
/// single dots, each label 1 to 63 bytes long.
pub open spec fn valid_labels(s: Seq<u8>) -> bool
    decreases s.len(),
{
    let d = first_dot(s);
    if d >= s.len() {
        1 <= s.len() <= 63
    } else {
        proof {
            lemma_first_dot_bounds(s);
        }
        1 <= d <= 63 && valid_labels(s.subrange(d + 1, s.len() as int))
    }
}

/// What the encoder accepts and the query path pre-validates: labels
/// of 1 to 63 bytes and a total dotted length of at most 255 bytes.
pub open spec fn valid_dotted_name(s: Seq<u8>) -> bool {
    s.len() <= 255 && valid_labels(s)
}

/// The wire bytes of the labels of `s`, each length-prefixed, without
/// the final zero terminator.
pub open spec fn spec_encode_labels(s: Seq<u8>) -> Seq<u8>
    decreases s.len(),
{
    let d = first_dot(s);
    if d >= s.len() {
        seq![s.len() as u8] + s
    } else {
        proof {
            lemma_first_dot_bounds(s);
        }
        seq![d as u8] + s.subrange(0, d) + spec_encode_labels(
            s.subrange(d + 1, s.len() as int),
        )
    }
}

/// The full uncompressed wire form of a dotted name.
pub open spec fn spec_encode_name(s: Seq<u8>) -> Seq<u8> {
    spec_encode_labels(s) + seq![0u8]
}

/// An encoded valid name is exactly two bytes longer than its dotted
/// form: one length byte per label in place of each dot and before the
/// first label, plus the terminator.
pub proof fn lemma_encode_name_len(s: Seq<u8>)
    requires
        valid_labels(s),
    ensures
        spec_encode_labels(s).len() == s.len() + 1,
        spec_encode_name(s).len() == s.len() + 2,
    decreases s.len(),
{
    lemma_first_dot_bounds(s);
    let d = first_dot(s);
    if d < s.len() {
        lemma_encode_name_len(s.subrange(d + 1, s.len() as int));
    }
}

/// A valid dotted name is never empty.
pub proof fn lemma_valid_labels_nonempty(s: Seq<u8>)
    requires
        valid_labels(s),
    ensures
        s.len() >= 1,
{
    lemma_first_dot_bounds(s);
}

/// The bookkeeping invariant of the pointer-cycle guard: the offsets
/// already visited are distinct and lie inside the message.
pub open spec fn visited_ok(len: nat, visited: Seq<usize>) -> bool {
    visited.no_duplicates() && (forall|i: int|
        0 <= i < visited.len() ==> (visited[i] as nat) < len)
}

/// Distinct offsets inside a message of `len` bytes number at most
/// `len`; this bounds the pointer-following recursion.
pub proof fn lemma_visited_bound(len: nat, visited: Seq<usize>)
    requires
        visited_ok(len, visited),
    ensures
        visited.len() <= len,
{
    let ints = visited.map_values(|x: usize| x as int);
    assert(ints.no_duplicates());
    ints.unique_seq_to_set();
    assert(ints.to_set().subset_of(set_int_range(0, len as int))) by {
        assert forall|x: int| ints.to_set().contains(x) implies set_int_range(
            0,
            len as int,
        ).contains(x) by {
            let i = choose|i: int| 0 <= i < ints.len() && ints[i] == x;
            assert((visited[i] as nat) < len);
        }
    }
    lemma_int_range(0, len as int);
    lemma_len_subset(ints.to_set(), set_int_range(0, len as int));
}

/// One step of name decoding at `pos`, with `visited` the offsets
/// already entered through compression pointers.  Returns the dotted
/// name and the caller-visible end position: past the terminating zero
/// byte, or past the first 2-byte pointer.
pub open spec fn spec_decode_name_rec(b: Seq<u8>, pos: usize, visited: Seq<usize>) -> Result<
    (Seq<u8>, usize),
    DnsError,
>
    decreases b.len() - visited.len(), b.len() - pos,
        when visited_ok(b.len(), visited) && b.len() <= usize::MAX
{
    if pos >= b.len() {
        Err(DnsError { kind: ErrorKind::TruncatedInput, at: pos })
    } else {
        let len = b[pos as int];
        if len == 0 {
            Ok((Seq::<u8>::empty(), (pos + 1) as usize))
        } else if len < 64 {
            if pos + 1 + len > b.len() {
                Err(DnsError { kind: ErrorKind::TruncatedInput, at: pos })
            } else {
                let label = b.subrange(pos + 1, pos + 1 + len);
                match spec_decode_name_rec(b, (pos + 1 + len) as usize, visited) {
                    Ok((rest, end)) => Ok(
                        (
                            if rest.len() == 0 {
                                label
                            } else {
                                label + seq![46u8] + rest
                            },
                            end,
                        ),
                    ),
                    Err(e) => Err(e),
                }
            }
        } else if len >= 192 {
            if pos + 2 > b.len() {
                Err(DnsError { kind: ErrorKind::TruncatedInput, at: pos })
            } else {
                let off = ((len - 192) * 256 + b[pos + 1]) as usize;
                if visited.contains(off) {
                    Err(DnsError { kind: ErrorKind::MalformedName, at: pos })
                } else if off >= b.len() {
                    Err(DnsError { kind: ErrorKind::TruncatedInput, at: pos })
                } else {
                    proof {
                        lemma_visited_push(b.len(), visited, off);
                    }
                    match spec_decode_name_rec(b, off, visited.push(off)) {
                        Ok((nm, _)) => Ok((nm, (pos + 2) as usize)),
                        Err(e) => Err(e),
                    }
                }
            }
        } else {
            Err(DnsError { kind: ErrorKind::MalformedName, at: pos })
        }
    }
}

/// Pushing a fresh in-range offset keeps the guard invariant and
/// strictly grows the visited set, which stays bounded by the message
/// length.
pub proof fn lemma_visited_push(len: nat, visited: Seq<usize>, off: usize)
    requires
        visited_ok(len, visited),
        !visited.contains(off),
        (off as nat) < len,
    ensures
        visited_ok(len, visited.push(off)),
        visited.push(off).len() <= len,
{
    let v2 = visited.push(off);
    assert(v2.no_duplicates()) by {
        assert forall|i: int, j: int| 0 <= i < j < v2.len() implies v2[i] != v2[j] by {
            if j == v2.len() - 1 {
                if v2[i] == off {
                    assert(visited[i] == off);
                    assert(visited.contains(off));
                }
            } else {
                assert(v2[i] == visited[i] && v2[j] == visited[j]);
            }
        }
    }
    lemma_visited_bound(len, v2);
}

/// Decoding a whole name: the label walk above plus the total-length
/// rule, a dotted name longer than 255 bytes being malformed.
pub open spec fn spec_decode_name(b: Seq<u8>, pos: usize) -> Result<(Seq<u8>, usize), DnsError> {
    match spec_decode_name_rec(b, pos, Seq::<usize>::empty()) {
        Ok((nm, end)) => if nm.len() > 255 {
            Err(DnsError { kind: ErrorKind::MalformedName, at: pos })
        } else {
            Ok((nm, end))
        },
        Err(e) => Err(e),
    }
}

/// A successful name decode never reports an end position beyond the
/// message.
pub proof fn lemma_decode_name_end(b: Seq<u8>, pos: usize, visited: Seq<usize>)
    requires
        visited_ok(b.len(), visited),
        b.len() <= usize::MAX,
    ensures
        spec_decode_name_rec(b, pos, visited) matches Ok((nm, end)) ==> end <= b.len(),
    decreases b.len() - visited.len(), b.len() - pos,
{
    if pos < b.len() {
        let len = b[pos as int];
        if len == 0 {
        } else if len < 64 {
            if pos + 1 + len <= b.len() {
                lemma_decode_name_end(b, (pos + 1 + len) as usize, visited);
            }
        } else if len >= 192 {
            if pos + 2 <= b.len() {
                let off = ((len - 192) * 256 + b[pos + 1]) as usize;
                if !visited.contains(off) && off < b.len() {
                    lemma_visited_push(b.len(), visited, off);
                    lemma_decode_name_end(b, off, visited.push(off));
                }
            }
        }
    }
}

/// A compression pointer to an offset already visited during the same
/// decode fails as malformed; this is the cycle guard that makes the
/// decoder total on adversarial input.
pub proof fn lemma_pointer_revisit_fails(b: Seq<u8>, pos: usize, visited: Seq<usize>)
    requires
        visited_ok(b.len(), visited),
        b.len() <= usize::MAX,
        pos + 2 <= b.len(),
        b[pos as int] >= 192,
        visited.contains((((b[pos as int] - 192) * 256 + b[pos + 1])) as usize),
    ensures
        spec_decode_name_rec(b, pos, visited) == Err::<(Seq<u8>, usize), DnsError>(
            DnsError { kind: ErrorKind::MalformedName, at: pos },
        ),
{
}

/// How an executable name result must relate to its specification:
/// same outcome, same name bytes, same end position or error.
pub open spec fn name_res_matches(
    r: Result<(Vec<u8>, usize), DnsError>,
    s: Result<(Seq<u8>, usize), DnsError>,
) -> bool {
    match r {
        Ok((v, end)) => s == Ok::<(Seq<u8>, usize), DnsError>((v@, end)),
        Err(e) => s == Err::<(Seq<u8>, usize), DnsError>(e),
    }
}

fn visited_contains(v: &Vec<usize>, x: usize) -> (r: bool)
    ensures
        r == v@.contains(x),
{
    let n = v.len();
    let mut i: usize = 0;
    while i < n
        invariant
            i <= n,
            n == v@.len(),
            forall|k: int| 0 <= k < i ==> v@[k] != x,
        decreases n - i,
    {
        if v[i] == x {
            return true;
        }
        i += 1;
    }
    false
}

fn decode_name_rec(b: &Vec<u8>, pos: usize, visited: Vec<usize>) -> (r: Result<
    (Vec<u8>, usize),
    DnsError,
>)
    requires
        visited_ok(b@.len(), visited@),
    ensures
        name_res_matches(r, spec_decode_name_rec(b@, pos, visited@)),
    decreases b@.len() - visited@.len(), b@.len() - pos,
{
    let n = b.len();
    if pos >= n {
        return Err(DnsError::new(ErrorKind::TruncatedInput, pos));
    }
    let len_byte = b[pos];
    if len_byte == 0 {
        Ok((Vec::new(), pos + 1))
    } else if len_byte < 64 {
        let llen = len_byte as usize;
        if n - pos - 1 < llen {
            return Err(DnsError::new(ErrorKind::TruncatedInput, pos));
        }
        let mut label: Vec<u8> = Vec::new();
        let mut i: usize = 0;
        while i < llen
            invariant
                i <= llen,
                pos + 1 + llen <= n,
                n == b@.len(),
                label@ == b@.subrange(pos + 1, pos + 1 + i),
            decreases llen - i,
        {
            label.push(b[pos + 1 + i]);
            i += 1;
            assert(label@ =~= b@.subrange(pos + 1, pos + 1 + i));
        }
        match decode_name_rec(b, pos + 1 + llen, visited) {
            Ok((rest, end)) => {
                if rest.len() > 0 {
                    let ghost first = label@;
                    label.push(46);
                    let rlen = rest.len();
                    let mut j: usize = 0;
                    while j < rlen
                        invariant
                            j <= rlen,
                            rlen == rest@.len(),
                            label@ == first + seq![46u8] + rest@.subrange(0, j as int),
                        decreases rlen - j,
                    {
                        label.push(rest[j]);
                        j += 1;
                        assert(label@ =~= first + seq![46u8] + rest@.subrange(0, j as int));
                    }
                    assert(label@ =~= first + seq![46u8] + rest@);
                }
                Ok((label, end))
            },
            Err(e) => Err(e),
        }
    } else if len_byte >= 192 {
        if n - pos < 2 {
            return Err(DnsError::new(ErrorKind::TruncatedInput, pos));
        }
        let off = (len_byte - 192) as usize * 256 + b[pos + 1] as usize;
        if visited_contains(&visited, off) {
            return Err(DnsError::new(ErrorKind::MalformedName, pos));
        }
        if off >= n {
            return Err(DnsError::new(ErrorKind::TruncatedInput, pos));
        }
        let mut entered = visited;
        entered.push(off);
        proof {
            lemma_visited_push(b@.len(), entered@.drop_last(), off);
            assert(entered@.drop_last() =~= entered@.subrange(0, entered@.len() - 1));
        }
        match decode_name_rec(b, off, entered) {
            Ok((nm, _)) => Ok((nm, pos + 2)),
            Err(e) => Err(e),
        }
    } else {
        Err(DnsError::new(ErrorKind::MalformedName, pos))
    }
}

/// Decodes the domain name starting at `pos`, resolving compression
/// pointers against the whole of `b`.  Returns the dotted name and the
/// position just past the terminator or the first pointer.
pub fn decode_name(b: &Vec<u8>, pos: usize) -> (r: Result<(Vec<u8>, usize), DnsError>)
    ensures
        name_res_matches(r, spec_decode_name(b@, pos)),
{
    match decode_name_rec(b, pos, Vec::new()) {
        Ok((nm, end)) => {
            if nm.len() > 255 {
                Err(DnsError::new(ErrorKind::MalformedName, pos))
            } else {
                Ok((nm, end))
            }
        },
        Err(e) => Err(e),
    }
}

fn labels_valid_from(name: &Vec<u8>, i: usize) -> (r: bool)
    requires
        i <= name@.len(),
    ensures
        r == valid_labels(name@.subrange(i as int, name@.len() as int)),
    decreases name@.len() - i,
{
    let n = name.len();
    if i >= n {
        proof {
            assert(name@.subrange(i as int, n as int) =~= Seq::<u8>::empty());
        }
        return false;
    }
    let mut j = i;
    while j < n && name[j] != 46
        invariant
            i <= j <= n,
            n == name@.len(),
            forall|k: int| i <= k < j ==> name@[k] != 46,
        decreases n - j,
    {
        j += 1;
    }
    proof {
        let sub = name@.subrange(i as int, n as int);
        assert forall|k: int| 0 <= k < j - i implies sub[k] != 46 by {
            assert(sub[k] == name@[i + k]);
        }
        lemma_first_dot_is(sub, j - i);
    }
    let d = j - i;
    if d < 1 || d > 63 {
        return false;
    }
    if j == n {
        return true;
    }
    let r = labels_valid_from(name, j + 1);
    proof {
        let sub = name@.subrange(i as int, n as int);
        assert(sub.subrange(j - i + 1, sub.len() as int) =~= name@.subrange(j + 1, n as int));
    }
    r
}

/// Whether `name` is a well-formed dotted name for the query path:
/// labels of 1 to 63 bytes, total length at most 255 bytes.
pub fn name_is_valid(name: &Vec<u8>) -> (r: bool)
    ensures
        r == valid_dotted_name(name@),
{
    if name.len() > 255 {
        return false;
    }
    let r = labels_valid_from(name, 0);
    proof {
        assert(name@.subrange(0, name@.len() as int) =~= name@);
    }
    r
}

fn encode_labels_from(name: &Vec<u8>, i: usize, out: &mut Vec<u8>)
    requires
        i < name@.len(),
        valid_labels(name@.subrange(i as int, name@.len() as int)),
    ensures
        final(out)@ == old(out)@ + spec_encode_labels(
            name@.subrange(i as int, name@.len() as int),
        ),
    decreases name@.len() - i,
{
    let n = name.len();
    let mut j = i;
    while j < n && name[j] != 46
        invariant
            i <= j <= n,
            n == name@.len(),
            forall|k: int| i <= k < j ==> name@[k] != 46,
        decreases n - j,
    {
        j += 1;
    }
    proof {
        let sub = name@.subrange(i as int, n as int);
        assert forall|k: int| 0 <= k < j - i implies sub[k] != 46 by {
            assert(sub[k] == name@[i + k]);
        }
        lemma_first_dot_is(sub, j - i);
    }
    let d = j - i;
    out.push(d as u8);
    let mut k = i;
    while k < j
        invariant
            i <= k <= j <= n,
            n == name@.len(),
            out@ == old(out)@ + seq![(j - i) as u8] + name@.subrange(i as int, k as int),
        decreases j - k,
    {
        out.push(name[k]);
        k += 1;
        assert(out@ =~= old(out)@ + seq![(j - i) as u8] + name@.subrange(i as int, k as int));
    }
    if j < n {
        proof {
            let sub = name@.subrange(i as int, n as int);
            assert(sub.subrange(j - i + 1, sub.len() as int) =~= name@.subrange(j + 1, n as int));
            assert(sub.subrange(0, j - i) =~= name@.subrange(i as int, j as int));
            lemma_valid_labels_nonempty(name@.subrange(j + 1, n as int));
        }
        encode_labels_from(name, j + 1, out);
        proof {
            let sub = name@.subrange(i as int, n as int);
            assert(out@ =~= old(out)@ + spec_encode_labels(sub));
        }
    } else {
        proof {
            let sub = name@.subrange(i as int, n as int);
            assert(sub =~= name@.subrange(i as int, j as int));
            assert(out@ =~= old(out)@ + spec_encode_labels(sub));
        }
    }
}

/// Encodes a valid dotted name as length-prefixed labels closed by a
/// zero byte; compression pointers are never emitted.
pub fn encode_name(name: &Vec<u8>) -> (r: Vec<u8>)
    requires
        valid_labels(name@),
    ensures
        r@ == spec_encode_name(name@),
{
    proof {
        lemma_first_dot_bounds(name@);
        assert(name@.subrange(0, name@.len() as int) =~= name@);
    }
    let mut out: Vec<u8> = Vec::new();
    encode_labels_from(name, 0, &mut out);
    out.push(0);
    assert(out@ =~= spec_encode_name(name@));
    out
}

pub proof fn lemma_decode_encoded_labels(b: Seq<u8>, pos: usize, name: Seq<u8>, visited: Seq<usize>)
    requires
        b.len() <= usize::MAX,
        valid_labels(name),
        visited_ok(b.len(), visited),
        pos + name.len() + 2 <= b.len(),
        b.subrange(pos as int, pos + name.len() + 2) == spec_encode_name(name),
    ensures
        spec_decode_name_rec(b, pos, visited) == Ok::<(Seq<u8>, usize), DnsError>(
            (name, (pos + name.len() + 2) as usize),
        ),
    decreases name.len(),
{
    lemma_encode_name_len(name);
    lemma_first_dot_bounds(name);
    let d = first_dot(name);
    let enc = spec_encode_name(name);
    let len = name.len() as int;
    assert forall|k: int| 0 <= k < len + 2 implies b[pos + k] == enc[k] by {
        assert(b.subrange(pos as int, pos + name.len() + 2)[k] == b[pos + k]);
    }
    if d >= len {
        assert(b[pos + 0] == enc[0]);
        assert(b[pos as int] == len as u8);
        assert(b.subrange(pos + 1, pos + 1 + len) =~= name) by {
            assert forall|k: int| 0 <= k < len implies b.subrange(pos + 1, pos + 1 + len)[k]
                == name[k] by {
                assert(b[pos + 1 + k] == enc[1 + k]);
            }
        }
        assert(b[pos + 1 + len] == enc[1 + len]);
        assert(enc[1 + len] == 0u8);
    } else {
        let tail = name.subrange(d + 1, len);
        lemma_valid_labels_nonempty(tail);
        lemma_encode_name_len(tail);
        assert(enc =~= seq![d as u8] + name.subrange(0, d) + spec_encode_name(tail));
        assert(b[pos + 0] == enc[0]);
        assert(b[pos as int] == d as u8);
        assert(b.subrange(pos + 1, pos + 1 + d) =~= name.subrange(0, d)) by {
            assert forall|k: int| 0 <= k < d implies b.subrange(pos + 1, pos + 1 + d)[k] == name[
                k
            ] by {
                assert(b[pos + 1 + k] == enc[1 + k]);
            }
        }
        let pos2 = (pos + 1 + d) as usize;
        assert(b.subrange(pos2 as int, pos2 + tail.len() + 2) =~= spec_encode_name(tail)) by {
            assert forall|k: int| 0 <= k < tail.len() + 2 implies b.subrange(
                pos2 as int,
                pos2 + tail.len() + 2,
            )[k] == spec_encode_name(tail)[k] by {
                assert(b[pos2 + k] == enc[1 + d + k]);
            }
        }
        lemma_decode_encoded_labels(b, pos2, tail, visited);
        assert(name.subrange(0, d) + seq![46u8] + tail =~= name);
    }
}

/// Encode then decode is the identity on names: decoding the
/// uncompressed wire form of any valid dotted name, wherever it lies
/// in a message, yields that name and stops just past its terminator.
pub proof fn lemma_name_round_trip(b: Seq<u8>, pos: usize, name: Seq<u8>)
    requires
        b.len() <= usize::MAX,
        valid_dotted_name(name),
        pos + name.len() + 2 <= b.len(),
        b.subrange(pos as int, pos + name.len() + 2) == spec_encode_name(name),
    ensures
        spec_decode_name(b, pos) == Ok::<(Seq<u8>, usize), DnsError>(
            (name, (pos + name.len() + 2) as usize),
        ),
{
    lemma_decode_encoded_labels(b, pos, name, Seq::<usize>::empty());
}

} // verus!
