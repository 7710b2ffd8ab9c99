use vstd::prelude::*;

use vstd::utf8::{decode_utf8, encode_utf8, encode_utf8_decode_utf8, encode_utf8_valid_utf8,
    valid_utf8};

use crate::models::{seq_view, ListItem, TaskView};

verus! {

// The storage format: a task list is one 8-byte little-endian count, then each
// task in order as a completion byte (0 or 1) followed by its description and
// its datetime, each a length-prefixed UTF-8 string.

/// The eight little-endian bytes of `x`.
pub open spec fn enc_u64(x: u64) -> Seq<u8> {
    seq![
        (x & 0xFF) as u8,
        ((x >> 8) & 0xFF) as u8,
        ((x >> 16) & 0xFF) as u8,
        ((x >> 24) & 0xFF) as u8,
        ((x >> 32) & 0xFF) as u8,
        ((x >> 40) & 0xFF) as u8,
        ((x >> 48) & 0xFF) as u8,
        ((x >> 56) & 0xFF) as u8,
    ]
}

/// The value of eight little-endian bytes.
pub open spec fn le_u64(b: Seq<u8>) -> u64
    recommends
        b.len() == 8,
{
    (b[0] as u64) | ((b[1] as u64) << 8) | ((b[2] as u64) << 16) | ((b[3] as u64) << 24) | ((
    b[4] as u64) << 32) | ((b[5] as u64) << 40) | ((b[6] as u64) << 48) | ((b[7] as u64) << 56)
}

/// Reads one count field, returning it with the remaining bytes.
pub open spec fn dec_u64(b: Seq<u8>) -> Option<(u64, Seq<u8>)> {
    if b.len() >= 8 {
        Some((le_u64(b.take(8)), b.skip(8)))
    } else {
        None
    }
}

/// A string as its UTF-8 byte length, then its UTF-8 bytes.
pub open spec fn enc_str(s: Seq<char>) -> Seq<u8> {
    enc_u64(encode_utf8(s).len() as u64) + encode_utf8(s)
}

/// Reads one string field, returning its characters with the remaining bytes.
pub open spec fn dec_str(b: Seq<u8>) -> Option<(Seq<char>, Seq<u8>)> {
    match dec_u64(b) {
        Some((n, r)) => if n as int <= r.len() as int && valid_utf8(r.take(n as int)) {
            Some((decode_utf8(r.take(n as int)), r.skip(n as int)))
        } else {
            None
        },
        None => None,
    }
}

/// A task as its completion byte, description and datetime.
pub open spec fn enc_task(t: TaskView) -> Seq<u8> {
    seq![if t.completed { 1u8 } else { 0u8 }] + enc_str(t.description) + enc_str(t.datetime)
}

/// Reads one task, returning it with the remaining bytes.
pub open spec fn dec_task(b: Seq<u8>) -> Option<(TaskView, Seq<u8>)> {
    if b.len() >= 1 && (b[0] == 0u8 || b[0] == 1u8) {
        match dec_str(b.skip(1)) {
            Some((d, r1)) => match dec_str(r1) {
                Some((k, r2)) => Some(
                    (TaskView { completed: b[0] == 1u8, description: d, datetime: k }, r2),
                ),
                None => None,
            },
            None => None,
        }
    } else {
        None
    }
}

/// The tasks of `l`, encoded one after the other.
pub open spec fn enc_tasks(l: Seq<TaskView>) -> Seq<u8>
    decreases l.len(),
{
    if l.len() == 0 {
        Seq::empty()
    } else {
        enc_task(l[0]) + enc_tasks(l.drop_first())
    }
}

/// Reads `n` tasks in order, returning them with the remaining bytes.
pub open spec fn dec_tasks(n: nat, b: Seq<u8>) -> Option<(Seq<TaskView>, Seq<u8>)>
    decreases n,
{
    if n == 0 {
        Some((Seq::empty(), b))
    } else {
        match dec_task(b) {
            Some((t, r)) => match dec_tasks((n - 1) as nat, r) {
                Some((ts, r2)) => Some((seq![t] + ts, r2)),
                None => None,
            },
            None => None,
        }
    }
}

/// A whole task list: its length, then its tasks.
pub open spec fn enc_list(l: Seq<TaskView>) -> Seq<u8> {
    enc_u64(l.len() as u64) + enc_tasks(l)
}

/// Decodes a whole task list; `None` when the bytes are not an encoding.
pub open spec fn dec_list(b: Seq<u8>) -> Option<Seq<TaskView>> {
    match dec_u64(b) {
        Some((n, r)) => match dec_tasks(n as nat, r) {
            Some((ts, r2)) => if r2.len() == 0 {
                Some(ts)
            } else {
                None
            },
            None => None,
        },
        None => None,
    }
}

/// The format's count fields are 64 bits wide, so a list is encodable when its
/// length and each string's byte length fit in them.  Every list that exists
/// in memory does.
pub open spec fn encodable(l: Seq<TaskView>) -> bool {
    &&& l.len() <= u64::MAX
    &&& forall|i: int|
        0 <= i < l.len() ==> encode_utf8(#[trigger] l[i].description).len() <= u64::MAX
            && encode_utf8(l[i].datetime).len() <= u64::MAX
}

proof fn lemma_u64_round_trip(x: u64, rest: Seq<u8>)
    ensures
        dec_u64(enc_u64(x) + rest) == Some((x, rest)),
{
    let b = enc_u64(x) + rest;
    assert(b.take(8) =~= enc_u64(x));
    assert(b.skip(8) =~= rest);
    assert(le_u64(enc_u64(x)) == ((x & 0xFF) as u8 as u64) | (((x >> 8) & 0xFF) as u8 as u64) << 8
        | (((x >> 16) & 0xFF) as u8 as u64) << 16 | (((x >> 24) & 0xFF) as u8 as u64) << 24 | (((x
        >> 32) & 0xFF) as u8 as u64) << 32 | (((x >> 40) & 0xFF) as u8 as u64) << 40 | (((x >> 48)
        & 0xFF) as u8 as u64) << 48 | (((x >> 56) & 0xFF) as u8 as u64) << 56);
    assert(((x & 0xFF) as u8 as u64) | (((x >> 8) & 0xFF) as u8 as u64) << 8 | (((x >> 16)
        & 0xFF) as u8 as u64) << 16 | (((x >> 24) & 0xFF) as u8 as u64) << 24 | (((x >> 32)
        & 0xFF) as u8 as u64) << 32 | (((x >> 40) & 0xFF) as u8 as u64) << 40 | (((x >> 48)
        & 0xFF) as u8 as u64) << 48 | (((x >> 56) & 0xFF) as u8 as u64) << 56 == x)
        by (bit_vector);
}

proof fn lemma_str_round_trip(s: Seq<char>, rest: Seq<u8>)
    requires
        encode_utf8(s).len() <= u64::MAX,
    ensures
        dec_str(enc_str(s) + rest) == Some((s, rest)),
{
    let bytes = encode_utf8(s);
    let n = bytes.len() as u64;
    assert(enc_str(s) + rest =~= enc_u64(n) + (bytes + rest));
    lemma_u64_round_trip(n, bytes + rest);
    let r = bytes + rest;
    assert(r.take(n as int) =~= bytes);
    assert(r.skip(n as int) =~= rest);
    encode_utf8_valid_utf8(s);
    encode_utf8_decode_utf8(s);
}

proof fn lemma_task_round_trip(t: TaskView, rest: Seq<u8>)
    requires
        encode_utf8(t.description).len() <= u64::MAX,
        encode_utf8(t.datetime).len() <= u64::MAX,
    ensures
        dec_task(enc_task(t) + rest) == Some((t, rest)),
{
    let b = enc_task(t) + rest;
    let flag: u8 = if t.completed { 1u8 } else { 0u8 };
    assert(b[0] == flag);
    assert(b.skip(1) =~= enc_str(t.description) + (enc_str(t.datetime) + rest));
    lemma_str_round_trip(t.description, enc_str(t.datetime) + rest);
    lemma_str_round_trip(t.datetime, rest);
    assert(TaskView { completed: b[0] == 1u8, description: t.description, datetime: t.datetime }
        =~= t);
}

proof fn lemma_tasks_round_trip(l: Seq<TaskView>, rest: Seq<u8>)
    requires
        forall|i: int|
            0 <= i < l.len() ==> encode_utf8(#[trigger] l[i].description).len() <= u64::MAX
                && encode_utf8(l[i].datetime).len() <= u64::MAX,
    ensures
        dec_tasks(l.len(), enc_tasks(l) + rest) == Some((l, rest)),
    decreases l.len(),
{
    if l.len() == 0 {
        assert(enc_tasks(l) + rest =~= rest);
        assert(dec_tasks(0, rest) == Some((Seq::<TaskView>::empty(), rest)));
        assert(l =~= Seq::<TaskView>::empty());
    } else {
        let tail = l.drop_first();
        assert(enc_tasks(l) + rest =~= enc_task(l[0]) + (enc_tasks(tail) + rest));
        lemma_task_round_trip(l[0], enc_tasks(tail) + rest);
        assert(forall|i: int|
            0 <= i < tail.len() ==> encode_utf8(#[trigger] tail[i].description).len() <= u64::MAX
                && encode_utf8(tail[i].datetime).len() <= u64::MAX) by {
            assert(forall|i: int| 0 <= i < tail.len() ==> tail[i] == l[i + 1]);
        }
        lemma_tasks_round_trip(tail, rest);
        assert(seq![l[0]] + tail =~= l);
    }
}

/// The round-trip law: decoding the encoding of any task list yields that
/// list again, field for field and in order.
pub proof fn lemma_encode_decode(l: Seq<TaskView>)
    requires
        encodable(l),
    ensures
        dec_list(enc_list(l)) == Some(l),
{
    let n = l.len() as u64;
    lemma_u64_round_trip(n, enc_tasks(l));
    assert(enc_list(l) =~= enc_u64(n) + enc_tasks(l));
    assert(enc_tasks(l) + Seq::<u8>::empty() =~= enc_tasks(l));
    lemma_tasks_round_trip(l, Seq::empty());
}

proof fn lemma_enc_tasks_snoc(l: Seq<TaskView>)
    requires
        l.len() > 0,
    ensures
        enc_tasks(l) == enc_tasks(l.drop_last()) + enc_task(l.last()),
    decreases l.len(),
{
    if l.len() == 1 {
        assert(l.drop_first() =~= Seq::<TaskView>::empty());
        assert(enc_tasks(Seq::<TaskView>::empty()) =~= Seq::<u8>::empty());
        assert(l.drop_last() =~= Seq::<TaskView>::empty());
        assert(enc_tasks(l.drop_last()) =~= Seq::<u8>::empty());
        assert(enc_tasks(l) =~= enc_task(l[0]));
        assert(enc_tasks(l.drop_last()) + enc_task(l.last()) =~= enc_task(l[0]));
    } else {
        let tail = l.drop_first();
        lemma_enc_tasks_snoc(tail);
        assert(tail.drop_last() =~= l.drop_last().drop_first());
        assert(tail.last() == l.last());
        assert(enc_tasks(l) =~= enc_task(l[0]) + (enc_tasks(tail.drop_last()) + enc_task(
            l.last(),
        )));
        assert(l.drop_last()[0] == l[0]);
        assert(enc_tasks(l.drop_last()) =~= enc_task(l[0]) + enc_tasks(l.drop_last().drop_first()));
        assert(enc_tasks(l) =~= enc_tasks(l.drop_last()) + enc_task(l.last()));
    }
}

fn write_u64(out: &mut Vec<u8>, x: u64)
    ensures
        final(out)@ == old(out)@ + enc_u64(x),
{
    out.push((x & 0xFF) as u8);
    out.push(((x >> 8) & 0xFF) as u8);
    out.push(((x >> 16) & 0xFF) as u8);
    out.push(((x >> 24) & 0xFF) as u8);
    out.push(((x >> 32) & 0xFF) as u8);
    out.push(((x >> 40) & 0xFF) as u8);
    out.push(((x >> 48) & 0xFF) as u8);
    out.push(((x >> 56) & 0xFF) as u8);
    proof {
        assert(final(out)@ =~= old(out)@ + enc_u64(x));
    }
}

fn write_str(out: &mut Vec<u8>, s: &str)
    ensures
        final(out)@ == old(out)@ + enc_str(s@),
{
    let mut bytes = s.as_bytes_vec();
    let n: u64 = bytes.len() as u64;
    proof {
        assert(n == encode_utf8(s@).len() as u64);
    }
    write_u64(out, n);
    out.append(&mut bytes);
    proof {
        assert(final(out)@ =~= old(out)@ + enc_str(s@));
    }
}

/// Serializes a task list into the storage format's bytes.
pub fn encode(tasks: &Vec<ListItem>) -> (r: Vec<u8>)
    ensures
        r@ == enc_list(seq_view(tasks@)),
{
    let ghost l = seq_view(tasks@);
    let mut out: Vec<u8> = Vec::new();
    write_u64(&mut out, tasks.len() as u64);
    let n = tasks.len();
    let mut i: usize = 0;
    while i < n
        invariant
            n == tasks@.len(),
            i <= n,
            l == seq_view(tasks@),
            out@ == enc_u64(l.len() as u64) + enc_tasks(l.take(i as int)),
        decreases n - i,
    {
        let ghost pre = out@;
        let t = &tasks[i];
        out.push(if t.completed {
            1u8
        } else {
            0u8
        });
        write_str(&mut out, t.description.as_str());
        write_str(&mut out, t.datetime.as_str());
        proof {
            let part = l.take(i + 1);
            lemma_enc_tasks_snoc(part);
            assert(part.drop_last() =~= l.take(i as int));
            assert(part.last() == l[i as int]);
            assert(l[i as int] == tasks@[i as int]@);
            assert(out@ =~= pre + enc_task(l[i as int]));
            assert(out@ =~= enc_u64(l.len() as u64) + enc_tasks(part));
        }
        i += 1;
    }
    proof {
        assert(l.take(n as int) =~= l);
    }
    out
}

/// Relies on `String::from_utf8`: it returns `Ok` exactly on valid UTF-8,
/// decoding those bytes, and `Err` otherwise.
#[verifier::external_body]
fn bytes_to_string(v: Vec<u8>) -> (r: Option<String>)
    ensures
        r is Some <==> valid_utf8(v@),
        r matches Some(s) ==> s@ == decode_utf8(v@),
{
    String::from_utf8(v).ok()
}

fn read_u64(data: &[u8], pos: usize) -> (r: Option<(u64, usize)>)
    requires
        pos <= data@.len(),
    ensures
        match r {
            Some((x, p2)) => p2 == pos + 8 && p2 <= data@.len() && dec_u64(
                data@.skip(pos as int),
            ) == Some((x, data@.skip(p2 as int))),
            None => dec_u64(data@.skip(pos as int)) is None,
        },
{
    if data.len() - pos < 8 {
        return None;
    }
    let b0 = data[pos];
    let b1 = data[pos + 1];
    let b2 = data[pos + 2];
    let b3 = data[pos + 3];
    let b4 = data[pos + 4];
    let b5 = data[pos + 5];
    let b6 = data[pos + 6];
    let b7 = data[pos + 7];
    let x: u64 = (b0 as u64) | ((b1 as u64) << 8) | ((b2 as u64) << 16) | ((b3 as u64) << 24) | ((
    b4 as u64) << 32) | ((b5 as u64) << 40) | ((b6 as u64) << 48) | ((b7 as u64) << 56);
    proof {
        let rem = data@.skip(pos as int);
        assert(rem.len() >= 8);
        assert forall|k: int| 0 <= k < 8 implies rem.take(8)[k] == data@[pos + k] by {}
        assert(x == le_u64(rem.take(8)));
        assert(rem.skip(8) =~= data@.skip(pos + 8));
    }
    Some((x, pos + 8))
}

fn read_str(data: &[u8], pos: usize) -> (r: Option<(String, usize)>)
    requires
        pos <= data@.len(),
    ensures
        match r {
            Some((s, p2)) => pos <= p2 <= data@.len() && dec_str(data@.skip(pos as int)) == Some(
                (s@, data@.skip(p2 as int)),
            ),
            None => dec_str(data@.skip(pos as int)) is None,
        },
{
    let (n, p1) = match read_u64(data, pos) {
        Some(v) => v,
        None => {
            return None;
        },
    };
    let rem: usize = data.len() - p1;
    if n > rem as u64 {
        return None;
    }
    let nn: usize = n as usize;
    let mut buf: Vec<u8> = Vec::new();
    let mut j: usize = 0;
    while j < nn
        invariant
            p1 + nn <= data@.len(),
            data@.len() <= usize::MAX,
            j <= nn,
            buf@ == data@.subrange(p1 as int, p1 + j),
        decreases nn - j,
    {
        buf.push(data[p1 + j]);
        proof {
            assert(buf@ =~= data@.subrange(p1 as int, p1 + j + 1));
        }
        j += 1;
    }
    proof {
        let r1 = data@.skip(p1 as int);
        assert(r1.take(n as int) =~= data@.subrange(p1 as int, p1 + nn));
        assert(r1.skip(n as int) =~= data@.skip(p1 + nn));
    }
    match bytes_to_string(buf) {
        Some(s) => Some((s, p1 + nn)),
        None => None,
    }
}

fn read_task(data: &[u8], pos: usize) -> (r: Option<(ListItem, usize)>)
    requires
        pos <= data@.len(),
    ensures
        match r {
            Some((t, p2)) => pos <= p2 <= data@.len() && dec_task(data@.skip(pos as int)) == Some(
                (t@, data@.skip(p2 as int)),
            ),
            None => dec_task(data@.skip(pos as int)) is None,
        },
{
    if data.len() - pos < 1 {
        return None;
    }
    let flag = data[pos];
    if flag > 1 {
        return None;
    }
    proof {
        assert(data@.skip(pos as int)[0] == data@[pos as int]);
        assert(data@.skip(pos as int).skip(1) =~= data@.skip(pos + 1));
    }
    let (description, p1) = match read_str(data, pos + 1) {
        Some(v) => v,
        None => {
            return None;
        },
    };
    let (datetime, p2) = match read_str(data, p1) {
        Some(v) => v,
        None => {
            return None;
        },
    };
    let item = ListItem { completed: flag == 1, description, datetime };
    Some((item, p2))
}

spec fn prepend_tasks(ts: Seq<TaskView>, rest: Option<(Seq<TaskView>, Seq<u8>)>) -> Option<
    (Seq<TaskView>, Seq<u8>),
> {
    match rest {
        Some((us, r)) => Some((ts + us, r)),
        None => None,
    }
}

/// Deserializes storage bytes back into a task list; `None` when the bytes
/// are not an encoding the format produces.
#[verifier::rlimit(50)]
pub fn decode(data: &[u8]) -> (r: Option<Vec<ListItem>>)
    ensures
        match dec_list(data@) {
            Some(m) => r matches Some(v) && seq_view(v@) == m,
            None => r is None,
        },
{
    proof {
        assert(data@.skip(0) =~= data@);
    }
    let (n, start) = match read_u64(data, 0) {
        Some(v) => v,
        None => {
            return None;
        },
    };
    let mut acc: Vec<ListItem> = Vec::new();
    let mut pos = start;
    let mut i: u64 = 0;
    while i < n
        invariant
            pos <= data@.len(),
            i <= n,
            dec_u64(data@) == Some((n, data@.skip(start as int))),
            dec_tasks(n as nat, data@.skip(start as int)) == prepend_tasks(
                seq_view(acc@),
                dec_tasks((n - i) as nat, data@.skip(pos as int)),
            ),
        decreases n - i,
    {
        match read_task(data, pos) {
            Some((item, p2)) => {
                let ghost pre = seq_view(acc@);
                acc.push(item);
                proof {
                    assert(seq_view(acc@) =~= pre + seq![item@]);
                    assert(dec_tasks((n - i) as nat, data@.skip(pos as int)) == prepend_tasks(
                        seq![item@],
                        dec_tasks((n - i - 1) as nat, data@.skip(p2 as int)),
                    ));
                    assert(prepend_tasks(
                        pre,
                        prepend_tasks(
                            seq![item@],
                            dec_tasks((n - i - 1) as nat, data@.skip(p2 as int)),
                        ),
                    ) =~~= prepend_tasks(
                        seq_view(acc@),
                        dec_tasks((n - i - 1) as nat, data@.skip(p2 as int)),
                    ));
                }
                pos = p2;
                i += 1;
            },
            None => {
                return None;
            },
        }
    }
    if data.len() - pos > 0 {
        return None;
    }
    proof {
        assert(dec_tasks(0, data@.skip(pos as int)) == Some(
            (Seq::<TaskView>::empty(), data@.skip(pos as int)),
        ));
        assert(seq_view(acc@) + Seq::<TaskView>::empty() =~= seq_view(acc@));
        assert(data@.skip(pos as int).len() == 0);
    }
    Some(acc)
}

/// What loading storage contents yields: the empty list for an empty file,
/// otherwise the decoded list, or `None` for undecodable bytes.
pub fn load(data: &[u8]) -> (r: Option<Vec<ListItem>>)
    ensures
        data@.len() == 0 ==> (r matches Some(v) && seq_view(v@) == Seq::<TaskView>::empty()),
        data@.len() > 0 ==> match dec_list(data@) {
            Some(m) => r matches Some(v) && seq_view(v@) == m,
            None => r is None,
        },
{
    if data.len() == 0 {
        let v: Vec<ListItem> = Vec::new();
        proof {
            assert(seq_view(v@) =~= Seq::<TaskView>::empty());
        }
        Some(v)
    } else {
        decode(data)
    }
}

} // verus!
