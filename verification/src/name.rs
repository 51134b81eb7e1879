//! Domain names: their labels, their dotted text and their wire form.
//!
//! A name is modelled as the sequence of its labels, each a sequence of bytes.
//! On the wire every label is preceded by its length and the name ends with a
//! zero byte; a length byte of `0xC0` or more starts a two-byte compression
//! pointer to another place of the same message.

use crate::error::DnsError;
use crate::wire::push_bytes;
use vstd::prelude::*;

verus! {

/// The longest label, in bytes.
pub const MAX_LABEL_LEN: usize = 63;

/// The longest name, in bytes of its wire form.
pub const MAX_NAME_LEN: usize = 255;

/// How many compression pointers one name may follow.
pub const MAX_POINTER_FOLLOWS: usize = 5;

/// The byte that separates labels in text.
pub const DOT: u8 = 0x2e;

/// The smallest length byte that starts a compression pointer.
pub const POINTER_FLAG: u8 = 0xc0;

/// A domain name as the ordered list of its labels.
#[derive(Clone, Debug, PartialEq, Eq)]
pub struct DomainName {
    pub labels: Vec<Vec<u8>>,
}

/// The labels held by a vector of byte vectors.
pub open spec fn labels_view(labels: Seq<Vec<u8>>) -> Seq<Seq<u8>> {
    Seq::new(labels.len(), |i: int| labels[i]@)
}

impl View for DomainName {
    type V = Seq<Seq<u8>>;

    open spec fn view(&self) -> Seq<Seq<u8>> {
        labels_view(self.labels@)
    }
}

/// Every byte is below 128.
pub open spec fn all_ascii(bytes: Seq<u8>) -> bool {
    forall|i: int| 0 <= i < bytes.len() ==> bytes[i] < 128
}

/// A label that the wire form can carry: at most 63 bytes, all of them ASCII.
pub open spec fn label_ok(label: Seq<u8>) -> bool {
    label.len() <= MAX_LABEL_LEN && all_ascii(label)
}

/// Every label can be carried.
pub open spec fn labels_ok(labels: Seq<Seq<u8>>) -> bool {
    forall|i: int| 0 <= i < labels.len() ==> label_ok(#[trigger] labels[i])
}

/// No label is empty.
pub open spec fn no_empty_label(labels: Seq<Seq<u8>>) -> bool {
    forall|i: int| 0 <= i < labels.len() ==> (#[trigger] labels[i]).len() > 0
}

/// The labels one after the other, each behind its length byte, without the
/// closing zero.
pub open spec fn wire_labels(labels: Seq<Seq<u8>>) -> Seq<u8>
    decreases labels.len(),
{
    if labels.len() == 0 {
        Seq::empty()
    } else {
        seq![labels[0].len() as u8] + labels[0] + wire_labels(labels.skip(1))
    }
}

/// The uncompressed wire form of a name.
pub open spec fn wire_name(labels: Seq<Seq<u8>>) -> Seq<u8> {
    wire_labels(labels) + seq![0u8]
}

/// What encoding a name gives: `InvalidLabel` if a label cannot be carried,
/// else `NameTooLong` if the wire form exceeds 255 bytes, else the wire form.
pub open spec fn encode_name_spec(labels: Seq<Seq<u8>>) -> Result<Seq<u8>, DnsError> {
    if !labels_ok(labels) {
        Err(DnsError::InvalidLabel)
    } else if wire_name(labels).len() > MAX_NAME_LEN {
        Err(DnsError::NameTooLong)
    } else {
        Ok(wire_name(labels))
    }
}

/// The labels of a dotted text: the stretches between the dots. A text
/// without a dot is one label, and so is the empty text.
pub open spec fn split_labels(text: Seq<u8>) -> Seq<Seq<u8>>
    decreases text.len(),
{
    if text.len() == 0 {
        seq![Seq::<u8>::empty()]
    } else {
        let before = split_labels(text.drop_last());
        if text.last() == DOT {
            before.push(Seq::<u8>::empty())
        } else {
            before.drop_last().push(before.last().push(text.last()))
        }
    }
}

/// The dotted text of a list of labels.
pub open spec fn join_labels(labels: Seq<Seq<u8>>) -> Seq<u8>
    decreases labels.len(),
{
    if labels.len() == 0 {
        Seq::empty()
    } else if labels.len() == 1 {
        labels[0]
    } else {
        join_labels(labels.drop_last()) + seq![DOT] + labels.last()
    }
}

/// A byte result seen through the view of its bytes.
pub open spec fn bytes_result(r: Result<Vec<u8>, DnsError>) -> Result<Seq<u8>, DnsError> {
    match r {
        Ok(bytes) => Ok(bytes@),
        Err(e) => Err(e),
    }
}

/// The wire form of two lists of labels in a row is the two wire forms in a row.
pub proof fn lemma_wire_labels_concat(a: Seq<Seq<u8>>, b: Seq<Seq<u8>>)
    ensures
        wire_labels(a + b) == wire_labels(a) + wire_labels(b),
    decreases a.len(),
{
    if a.len() == 0 {
        assert(a + b =~= b);
        assert(wire_labels(a) + wire_labels(b) =~= wire_labels(b));
    } else {
        lemma_wire_labels_concat(a.skip(1), b);
        assert((a + b).skip(1) =~= a.skip(1) + b);
        assert((a + b)[0] == a[0]);
        assert(wire_labels(a + b) =~= wire_labels(a) + wire_labels(b));
    }
}

/// One more label adds its length byte and its bytes to the wire form.
pub proof fn lemma_wire_labels_push(a: Seq<Seq<u8>>, label: Seq<u8>)
    ensures
        wire_labels(a.push(label)) == wire_labels(a) + seq![label.len() as u8] + label,
{
    reveal_with_fuel(wire_labels, 2);
    lemma_wire_labels_concat(a, seq![label]);
    assert(a.push(label) =~= a + seq![label]);
    assert(seq![label].skip(1) =~= Seq::<Seq<u8>>::empty());
    assert(wire_labels(seq![label]) =~= seq![label.len() as u8] + label);
    assert(wire_labels(a) + (seq![label.len() as u8] + label) =~= wire_labels(a) + seq![
        label.len() as u8,
    ] + label);
}

/// Splitting a text always gives at least one label, and none holds a dot.
pub proof fn lemma_split_labels_shape(text: Seq<u8>)
    ensures
        split_labels(text).len() >= 1,
        forall|i: int, j: int|
            0 <= i < split_labels(text).len() && 0 <= j < split_labels(text)[i].len()
                ==> split_labels(text)[i][j] != DOT,
    decreases text.len(),
{
    if text.len() > 0 {
        lemma_split_labels_shape(text.drop_last());
    }
}

/// Joining the labels of a text with dots gives the text back.
pub proof fn lemma_join_split(text: Seq<u8>)
    ensures
        join_labels(split_labels(text)) == text,
    decreases text.len(),
{
    if text.len() == 0 {
        assert(join_labels(split_labels(text)) =~= text);
    } else {
        let before = split_labels(text.drop_last());
        lemma_join_split(text.drop_last());
        lemma_split_labels_shape(text.drop_last());
        if text.last() == DOT {
            let now = before.push(Seq::<u8>::empty());
            assert(now.drop_last() =~= before);
            assert(join_labels(now) =~= text.drop_last() + seq![DOT]);
            assert(text.drop_last() + seq![DOT] =~= text);
        } else {
            let grown = before.last().push(text.last());
            let now = before.drop_last().push(grown);
            assert(now.drop_last() =~= before.drop_last());
            if before.len() == 1 {
                assert(join_labels(now) =~= before[0].push(text.last()));
            } else {
                assert(join_labels(now) =~= join_labels(before).push(text.last()));
            }
            assert(text.drop_last().push(text.last()) =~= text);
        }
    }
}

/// Checks one label: at most 63 bytes, all ASCII.
fn check_label(label: &Vec<u8>) -> (ok: bool)
    ensures
        ok == label_ok(label@),
{
    if label.len() > MAX_LABEL_LEN {
        return false;
    }
    let mut i: usize = 0;
    while i < label.len()
        invariant
            i <= label.len(),
            forall|j: int| 0 <= j < i ==> label@[j] < 128,
        decreases label.len() - i,
    {
        if label[i] >= 128 {
            return false;
        }
        i += 1;
    }
    true
}

impl DomainName {
    /// The name whose dotted text is `text`: its labels are the stretches
    /// between the dots.
    pub fn from_bytes(text: &[u8]) -> (name: DomainName)
        ensures
            name@ == split_labels(text@),
    {
        let mut labels: Vec<Vec<u8>> = Vec::new();
        let mut current: Vec<u8> = Vec::new();
        let mut i: usize = 0;
        assert(text@.take(0) =~= Seq::<u8>::empty());
        assert(labels_view(labels@).push(current@) =~= seq![Seq::<u8>::empty()]);
        while i < text.len()
            invariant
                i <= text.len(),
                split_labels(text@.take(i as int)) == labels_view(labels@).push(current@),
            decreases text.len() - i,
        {
            let c = text[i];
            proof {
                let upto = text@.take(i as int + 1);
                assert(upto.drop_last() =~= text@.take(i as int));
                assert(upto.last() == c);
            }
            let ghost before = labels_view(labels@).push(current@);
            if c == DOT {
                labels.push(current);
                current = Vec::new();
                assert(labels_view(labels@).push(current@) =~= before.push(Seq::<u8>::empty()));
            } else {
                let ghost old_current = current@;
                current.push(c);
                assert(before.drop_last() =~= labels_view(labels@));
                assert(before.last() == old_current);
            }
            i += 1;
        }
        assert(text@.take(i as int) =~= text@);
        let ghost before = labels_view(labels@).push(current@);
        labels.push(current);
        assert(labels_view(labels@) =~= before);
        DomainName { labels }
    }

    /// The name whose dotted text is `text`.
    pub fn from_text(text: &str) -> (name: DomainName)
        ensures
            name@ == split_labels(text_bytes(text@)),
    {
        DomainName::from_bytes(text.as_bytes())
    }

    /// The dotted text of the name, as bytes.
    pub fn to_text_bytes(&self) -> (text: Vec<u8>)
        ensures
            text@ == join_labels(self@),
    {
        let mut text: Vec<u8> = Vec::new();
        let mut i: usize = 0;
        assert(self@.take(0) =~= Seq::<Seq<u8>>::empty());
        while i < self.labels.len()
            invariant
                i <= self.labels.len(),
                text@ == join_labels(self@.take(i as int)),
            decreases self.labels.len() - i,
        {
            let ghost upto = self@.take(i as int + 1);
            assert(upto.drop_last() =~= self@.take(i as int));
            assert(upto.last() == self.labels@[i as int]@);
            if i > 0 {
                text.push(DOT);
            }
            push_bytes(&mut text, &self.labels[i]);
            assert(text@ =~= join_labels(upto));
            i += 1;
        }
        assert(self@.take(i as int) =~= self@);
        text
    }

    /// Whether the two names have the same labels, byte for byte.
    pub fn same_as(&self, other: &DomainName) -> (same: bool)
        ensures
            same == (self@ == other@),
    {
        assert(self@.len() == self.labels@.len() && other@.len() == other.labels@.len());
        if self.labels.len() != other.labels.len() {
            return false;
        }
        let mut i: usize = 0;
        while i < self.labels.len()
            invariant
                i <= self.labels.len(),
                self.labels.len() == other.labels.len(),
                self@.len() == self.labels@.len(),
                other@.len() == other.labels@.len(),
                forall|k: int| 0 <= k < i ==> self@[k] == other@[k],
            decreases self.labels.len() - i,
        {
            let a = &self.labels[i];
            let b = &other.labels[i];
            assert(self@[i as int] == a@ && other@[i as int] == b@);
            if a.len() != b.len() {
                assert(self@[i as int] != other@[i as int]);
                return false;
            }
            let mut j: usize = 0;
            while j < a.len()
                invariant
                    j <= a.len(),
                    a.len() == b.len(),
                    i < self@.len(),
                    i < other@.len(),
                    self@[i as int] == a@ && other@[i as int] == b@,
                    forall|k: int| 0 <= k < j ==> a@[k] == b@[k],
                decreases a.len() - j,
            {
                if a[j] != b[j] {
                    assert(a@[j as int] != b@[j as int]);
                    return false;
                }
                j += 1;
            }
            assert(self@[i as int] =~= other@[i as int]);
            i += 1;
        }
        assert(self@ =~= other@);
        true
    }

    /// A copy of the name.
    pub fn duplicate(&self) -> (copy: DomainName)
        ensures
            copy@ == self@,
    {
        let mut labels: Vec<Vec<u8>> = Vec::new();
        let mut i: usize = 0;
        while i < self.labels.len()
            invariant
                i <= self.labels.len(),
                labels_view(labels@) == self@.take(i as int),
            decreases self.labels.len() - i,
        {
            let source = &self.labels[i];
            let ghost before = labels_view(labels@);
            labels.push(source.clone());
            assert(labels_view(labels@) =~= before.push(source@));
            assert(self@.take(i as int + 1) =~= self@.take(i as int).push(source@));
            i += 1;
        }
        assert(self@.take(i as int) =~= self@);
        DomainName { labels }
    }

    /// The uncompressed wire form of the name. Fails with `InvalidLabel` if a
    /// label is longer than 63 bytes or holds a byte outside ASCII, and
    /// otherwise with `NameTooLong` if the wire form is longer than 255 bytes.
    pub fn encode(&self) -> (r: Result<Vec<u8>, DnsError>)
        ensures
            bytes_result(r) == encode_name_spec(self@),
    {
        let mut i: usize = 0;
        while i < self.labels.len()
            invariant
                i <= self.labels.len(),
                forall|k: int| 0 <= k < i ==> label_ok(#[trigger] self@[k]),
            decreases self.labels.len() - i,
        {
            if !check_label(&self.labels[i]) {
                assert(!label_ok(self@[i as int]));
                return Err(DnsError::InvalidLabel);
            }
            i += 1;
        }
        assert(labels_ok(self@));
        let mut out: Vec<u8> = Vec::new();
        let mut n: usize = 0;
        assert(self@.take(0) =~= Seq::<Seq<u8>>::empty());
        while n < self.labels.len()
            invariant
                n <= self.labels.len(),
                labels_ok(self@),
                out@ == wire_labels(self@.take(n as int)),
                out@.len() < MAX_NAME_LEN,
            decreases self.labels.len() - n,
        {
            let label = &self.labels[n];
            proof {
                let done = self@.take(n as int);
                assert(self@.take(n as int + 1) =~= done.push(label@));
                lemma_wire_labels_push(done, label@);
                assert(self@ =~= self@.take(n as int + 1) + self@.skip(n as int + 1));
                lemma_wire_labels_concat(self@.take(n as int + 1), self@.skip(n as int + 1));
                assert(label_ok(self@[n as int]));
            }
            if label.len() + 1 >= MAX_NAME_LEN - out.len() {
                return Err(DnsError::NameTooLong);
            }
            out.push(label.len() as u8);
            push_bytes(&mut out, label);
            n += 1;
        }
        assert(self@.take(n as int) =~= self@);
        out.push(0u8);
        assert(out@ =~= wire_name(self@));
        Ok(out)
    }
}

/// Whether a compression pointer stands at `pos`: a byte of `0xC0` or more.
pub open spec fn pointer_at(buf: Seq<u8>, pos: int) -> bool {
    0 <= pos < buf.len() && buf[pos] >= POINTER_FLAG
}

/// The offset that the pointer at `pos` names: the low six bits of its first
/// byte, then its second byte.
pub open spec fn pointer_target(buf: Seq<u8>, pos: int) -> int {
    (buf[pos] - POINTER_FLAG) * 256 + buf[pos + 1]
}

/// The name that starts at `pos` of `buf`, read with at most `follows`
/// pointer follows, and the offset just behind what the name takes at `pos`
/// itself: behind its closing zero, or behind its first pointer.
///
/// The read fails with `TruncatedMessage` where it would leave the buffer,
/// with `CompressionLoop` at a pointer when no follow is left, and with
/// `InvalidLabel` at a length byte from 64 to 191 or a label byte of 128 or more.
pub open spec fn name_at(buf: Seq<u8>, pos: int, follows: nat) -> Result<
    (Seq<Seq<u8>>, int),
    DnsError,
>
    decreases follows, buf.len() - pos,
{
    if pos < 0 || pos >= buf.len() {
        Err(DnsError::TruncatedMessage)
    } else if buf[pos] == 0 {
        Ok((Seq::empty(), pos + 1))
    } else if buf[pos] >= POINTER_FLAG {
        if pos + 1 >= buf.len() {
            Err(DnsError::TruncatedMessage)
        } else if follows == 0 {
            Err(DnsError::CompressionLoop)
        } else {
            match name_at(buf, pointer_target(buf, pos), (follows - 1) as nat) {
                Ok((labels, _)) => Ok((labels, pos + 2)),
                Err(e) => Err(e),
            }
        }
    } else if buf[pos] > MAX_LABEL_LEN {
        Err(DnsError::InvalidLabel)
    } else if pos + 1 + buf[pos] > buf.len() {
        Err(DnsError::TruncatedMessage)
    } else {
        let label = buf.subrange(pos + 1, pos + 1 + buf[pos]);
        if !all_ascii(label) {
            Err(DnsError::InvalidLabel)
        } else {
            match name_at(buf, pos + 1 + buf[pos], follows) {
                Ok((rest, end)) => Ok((seq![label] + rest, end)),
                Err(e) => Err(e),
            }
        }
    }
}

/// What decoding the name at `start` gives: its labels and the offset behind it.
pub open spec fn decode_name_spec(buf: Seq<u8>, start: int) -> Result<(Seq<Seq<u8>>, int), DnsError> {
    name_at(buf, start, MAX_POINTER_FOLLOWS as nat)
}

/// A name that decodes takes at least one byte where it starts and ends
/// inside the buffer.
pub proof fn lemma_name_end_bounds(buf: Seq<u8>, pos: int, follows: nat)
    requires
        name_at(buf, pos, follows) is Ok,
    ensures
        0 <= pos < name_at(buf, pos, follows)->Ok_0.1 <= buf.len(),
    decreases follows, buf.len() - pos,
{
    if buf[pos] != 0 && buf[pos] < POINTER_FLAG {
        lemma_name_end_bounds(buf, pos + 1 + buf[pos], follows);
    }
}

/// A read that continues `prefix`: the labels found are put behind `prefix`,
/// and the end is `end` where that is set.
spec fn continued(
    prefix: Seq<Seq<u8>>,
    end: Option<int>,
    rest: Result<(Seq<Seq<u8>>, int), DnsError>,
) -> Result<(Seq<Seq<u8>>, int), DnsError> {
    match rest {
        Ok((labels, e)) => Ok(
            (
                prefix + labels,
                match end {
                    Some(x) => x,
                    None => e,
                },
            ),
        ),
        Err(x) => Err(x),
    }
}

/// The offset held by an optional index.
spec fn end_view(end: Option<usize>) -> Option<int> {
    match end {
        Some(e) => Some(e as int),
        None => None,
    }
}

/// Copies `len` bytes from `from` on, or reports that one of them is not ASCII.
fn copy_ascii(buf: &[u8], from: usize, len: usize) -> (r: Option<Vec<u8>>)
    requires
        from + len <= buf@.len(),
    ensures
        match r {
            Some(bytes) => bytes@ == buf@.subrange(from as int, from + len) && all_ascii(bytes@),
            None => !all_ascii(buf@.subrange(from as int, from + len)),
        },
{
    let mut out: Vec<u8> = Vec::new();
    let mut j: usize = 0;
    let total: usize = buf.len();
    let ghost whole = buf@.subrange(from as int, from + len);
    while j < len
        invariant
            j <= len,
            from + len <= total,
            total == buf@.len(),
            whole == buf@.subrange(from as int, from + len),
            out@ == whole.take(j as int),
            all_ascii(out@),
        decreases len - j,
    {
        let b = buf[from + j];
        assert(whole[j as int] == b);
        if b >= 128 {
            return None;
        }
        out.push(b);
        assert(whole.take(j as int + 1) =~= whole.take(j as int).push(b));
        j += 1;
    }
    assert(whole.take(j as int) =~= whole);
    Some(out)
}

/// Decodes the name that starts at `start` of `buf`. Gives the name and the
/// number of bytes it takes at `start`: up to and including its closing zero,
/// or its first compression pointer. What a pointer leads to is not counted.
///
/// At most `MAX_POINTER_FOLLOWS` pointers are followed; one more fails with
/// `CompressionLoop`. Leaving the buffer fails with `TruncatedMessage`, a
/// length byte from 64 to 191 or a label byte outside ASCII with `InvalidLabel`.
pub fn decode_name(buf: &[u8], start: usize) -> (r: Result<(DomainName, usize), DnsError>)
    ensures
        match r {
            Ok((name, consumed)) => decode_name_spec(buf@, start as int) == Ok::<
                (Seq<Seq<u8>>, int),
                DnsError,
            >((name@, start + consumed)) && 0 < consumed && start + consumed <= buf@.len(),
            Err(e) => decode_name_spec(buf@, start as int) == Err::<(Seq<Seq<u8>>, int), DnsError>(e),
        },
{
    let mut labels: Vec<Vec<u8>> = Vec::new();
    let mut pos: usize = start;
    let mut follows: usize = MAX_POINTER_FOLLOWS;
    let mut end: Option<usize> = None;
    assert(labels_view(labels@) =~= Seq::<Seq<u8>>::empty());
    assert(continued(labels_view(labels@), end_view(end), name_at(buf@, pos as int, follows as nat))
        == name_at(buf@, pos as int, follows as nat)) by {
        match name_at(buf@, pos as int, follows as nat) {
            Ok((l, e)) => {
                assert(labels_view(labels@) + l =~= l);
            },
            Err(_) => {},
        }
    }
    loop
        invariant
            follows <= MAX_POINTER_FOLLOWS,
            end is None ==> start <= pos,
            end matches Some(e) ==> start + 2 <= e <= buf@.len(),
            decode_name_spec(buf@, start as int) == continued(
                labels_view(labels@),
                end_view(end),
                name_at(buf@, pos as int, follows as nat),
            ),
        decreases follows, buf@.len() - pos,
    {
        if pos >= buf.len() {
            return Err(DnsError::TruncatedMessage);
        }
        let b = buf[pos];
        if b == 0 {
            let consumed = match end {
                Some(e) => e - start,
                None => pos + 1 - start,
            };
            assert(labels_view(labels@) + Seq::<Seq<u8>>::empty() =~= labels_view(labels@));
            proof {
                lemma_name_end_bounds(buf@, start as int, MAX_POINTER_FOLLOWS as nat);
            }
            return Ok((DomainName { labels }, consumed));
        }
        if b >= POINTER_FLAG {
            if pos + 1 >= buf.len() {
                return Err(DnsError::TruncatedMessage);
            }
            if follows == 0 {
                return Err(DnsError::CompressionLoop);
            }
            let target: usize = (b - POINTER_FLAG) as usize * 256 + buf[pos + 1] as usize;
            if end.is_none() {
                end = Some(pos + 2);
            }
            pos = target;
            follows = follows - 1;
        } else {
            if b as usize > MAX_LABEL_LEN {
                return Err(DnsError::InvalidLabel);
            }
            let len: usize = b as usize;
            if len > buf.len() - pos - 1 {
                return Err(DnsError::TruncatedMessage);
            }
            let ghost label_bytes = buf@.subrange(pos + 1, pos + 1 + len);
            match copy_ascii(buf, pos + 1, len) {
                None => {
                    return Err(DnsError::InvalidLabel);
                },
                Some(label) => {
                    let ghost before = labels_view(labels@);
                    labels.push(label);
                    proof {
                        assert(labels_view(labels@) =~= before.push(label_bytes));
                        match name_at(buf@, pos + 1 + len, follows as nat) {
                            Ok((rest, e)) => {
                                assert(before + (seq![label_bytes] + rest) =~= before.push(
                                    label_bytes,
                                ) + rest);
                            },
                            Err(_) => {},
                        }
                    }
                    pos = pos + 1 + len;
                },
            }
        }
    }
}

/// The UTF-8 bytes of a text.
pub open spec fn text_bytes(text: Seq<char>) -> Seq<u8> {
    vstd::utf8::encode_utf8(text)
}

/// Encodes a dotted name to its wire form: for each label its length and its
/// bytes, then a zero byte. Fails with `InvalidLabel` if a label is longer
/// than 63 bytes or holds a character outside ASCII, and otherwise with
/// `NameTooLong` if the wire form is longer than 255 bytes.
pub fn encode_dns_name(domain_name: String) -> (r: Result<Vec<u8>, DnsError>)
    ensures
        bytes_result(r) == encode_name_spec(split_labels(text_bytes(domain_name@))),
{
    DomainName::from_text(domain_name.as_str()).encode()
}

} // verus!
