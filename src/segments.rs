//! Segment store: a room's messages live in numbered segments named
//! `chat_<index>`; segment 0 holds the room configuration, higher segments
//! hold at most `MAX_MSGS_PER_SEGMENT` messages each.

use crate::errors::MatrixErr;
use crate::messaging::{views, Message, MessageView, RoomConfig};
use crate::text::{chars_of, str_eq};
use vstd::prelude::*;

verus! {

/// Messages a segment holds before writes move on to the next one.
pub const MAX_MSGS_PER_SEGMENT: u64 = 3;

/// Index of the segment that holds the room configuration.
pub const CONFIG_SEGMENT: u32 = 0;

/// The prefix of every segment name, separator included.
pub open spec fn segment_prefix() -> Seq<char> {
    seq!['c', 'h', 'a', 't', '_']
}

pub open spec fn is_digit(c: char) -> bool {
    '0' <= c && c <= '9'
}

pub open spec fn digit_value(c: char) -> int {
    if c == '1' { 1 }
    else if c == '2' { 2 }
    else if c == '3' { 3 }
    else if c == '4' { 4 }
    else if c == '5' { 5 }
    else if c == '6' { 6 }
    else if c == '7' { 7 }
    else if c == '8' { 8 }
    else if c == '9' { 9 }
    else { 0 }
}

pub open spec fn digit_char(d: int) -> char {
    if d == 1 { '1' }
    else if d == 2 { '2' }
    else if d == 3 { '3' }
    else if d == 4 { '4' }
    else if d == 5 { '5' }
    else if d == 6 { '6' }
    else if d == 7 { '7' }
    else if d == 8 { '8' }
    else if d == 9 { '9' }
    else { '0' }
}

/// The decimal digits of `n`, without leading zeros.
pub open spec fn decimal(n: nat) -> Seq<char>
    decreases n,
{
    if n < 10 {
        seq![digit_char(n as int)]
    } else {
        decimal(n / 10) + seq![digit_char((n % 10) as int)]
    }
}

/// The value of a sequence of decimal digits.
pub open spec fn digits_value(d: Seq<char>) -> nat
    decreases d.len(),
{
    if d.len() == 0 {
        0
    } else {
        (digits_value(d.drop_last()) * 10 + digit_value(d.last())) as nat
    }
}

/// The name of segment `index`.
pub open spec fn segment_name_of(index: nat) -> Seq<char> {
    segment_prefix() + decimal(index)
}

/// Whether `name` has the shape `chat_<digits>`.
pub open spec fn is_segment_name(name: Seq<char>) -> bool {
    &&& name.len() > segment_prefix().len()
    &&& name.take(segment_prefix().len() as int) == segment_prefix()
    &&& forall|i: int| segment_prefix().len() <= i < name.len() ==> is_digit(#[trigger] name[i])
}

/// The index a segment name denotes, if it has the right shape and the index
/// fits in 32 bits.
pub open spec fn segment_index_of(name: Seq<char>) -> Option<u32> {
    let value = digits_value(name.skip(segment_prefix().len() as int));
    if is_segment_name(name) && value <= u32::MAX {
        Some(value as u32)
    } else {
        None
    }
}

/// The text of one decimal digit.
fn digit_str(d: u32) -> (r: &'static str)
    requires
        d < 10,
    ensures
        r@ == seq![digit_char(d as int)],
{
    proof {
        reveal_strlit("0");
        reveal_strlit("1");
        reveal_strlit("2");
        reveal_strlit("3");
        reveal_strlit("4");
        reveal_strlit("5");
        reveal_strlit("6");
        reveal_strlit("7");
        reveal_strlit("8");
        reveal_strlit("9");
    }
    if d == 0 { "0" }
    else if d == 1 { "1" }
    else if d == 2 { "2" }
    else if d == 3 { "3" }
    else if d == 4 { "4" }
    else if d == 5 { "5" }
    else if d == 6 { "6" }
    else if d == 7 { "7" }
    else if d == 8 { "8" }
    else { "9" }
}

/// Appends the decimal digits of `n` to `s`.
fn push_decimal(s: &mut String, n: u32)
    ensures
        final(s)@ == old(s)@ + decimal(n as nat),
    decreases n,
{
    if n >= 10 {
        push_decimal(s, n / 10);
    }
    s.append(digit_str(n % 10));
    proof {
        assert(old(s)@ + decimal(n as nat) =~= if n >= 10 {
            old(s)@ + decimal((n / 10) as nat) + seq![digit_char((n % 10) as int)]
        } else {
            old(s)@ + seq![digit_char((n % 10) as int)]
        });
    }
}

/// The name of segment `index`, `chat_<index>`.
pub fn segment_name(index: u32) -> (r: String)
    ensures
        r@ == segment_name_of(index as nat),
{
    let mut s = String::new();
    proof {
        reveal_strlit("chat_");
    }
    s.append("chat_");
    push_decimal(&mut s, index);
    s
}

/// The value of one character as a decimal digit, if it is one.
fn digit_of(c: char) -> (r: Option<u32>)
    ensures
        r == if is_digit(c) {
            Some(digit_value(c) as u32)
        } else {
            None::<u32>
        },
{
    if c == '0' { Some(0) }
    else if c == '1' { Some(1) }
    else if c == '2' { Some(2) }
    else if c == '3' { Some(3) }
    else if c == '4' { Some(4) }
    else if c == '5' { Some(5) }
    else if c == '6' { Some(6) }
    else if c == '7' { Some(7) }
    else if c == '8' { Some(8) }
    else if c == '9' { Some(9) }
    else { None }
}

/// A digit string is worth at least each of its prefixes.
proof fn lemma_digits_prefix_le(s: Seq<char>, k: int)
    requires
        0 <= k <= s.len(),
    ensures
        digits_value(s.take(k)) <= digits_value(s),
    decreases s.len() - k,
{
    if k < s.len() {
        lemma_digits_prefix_le(s, k + 1);
        assert(s.take(k + 1).drop_last() =~= s.take(k));
    } else {
        assert(s.take(k) =~= s);
    }
}

/// Parses a segment name `chat_<digits>` back to its index. Names of another
/// shape, or whose index does not fit in 32 bits, give `None`.
pub fn parse_segment_name(name: &str) -> (r: Option<u32>)
    ensures
        r == segment_index_of(name@),
{
    let c = chars_of(name);
    let plen: usize = 5;
    if c.len() <= plen {
        return None;
    }
    if !(c[0] == 'c' && c[1] == 'h' && c[2] == 'a' && c[3] == 't' && c[4] == '_') {
        proof {
            assert(c@.take(5) != segment_prefix()) by {
                if c@.take(5) == segment_prefix() {
                    assert(c@.take(5)[0] == 'c');
                    assert(c@.take(5)[1] == 'h');
                    assert(c@.take(5)[2] == 'a');
                    assert(c@.take(5)[3] == 't');
                    assert(c@.take(5)[4] == '_');
                }
            }
        }
        return None;
    }
    assert(c@.take(5) =~= segment_prefix());
    let ghost suffix = c@.skip(5);
    let mut acc: u32 = 0;
    let mut i: usize = plen;
    assert(suffix.take(0) =~= Seq::<char>::empty());
    while i < c.len()
        invariant
            5 <= i <= c.len(),
            c@ == name@,
            suffix == c@.skip(5),
            c@.take(5) == segment_prefix(),
            forall|k: int| 5 <= k < i ==> is_digit(#[trigger] c@[k]),
            acc == digits_value(suffix.take(i - 5)),
        decreases c.len() - i,
    {
        let d = match digit_of(c[i]) {
            Some(d) => d,
            None => {
                return None;
            },
        };
        assert(suffix.take(i - 5 + 1).drop_last() =~= suffix.take(i - 5));
        assert(suffix.take(i - 5 + 1).last() == c@[i as int]);
        if acc > 429_496_729 || (acc == 429_496_729 && d > 5) {
            proof {
                lemma_digits_prefix_le(suffix, i - 5 + 1);
            }
            return None;
        }
        acc = acc * 10 + d;
        i = i + 1;
    }
    assert(suffix.take(i - 5) =~= suffix);
    Some(acc)
}

/// Reads the index of every listed segment name. The first name that is not
/// a segment name is reported as an internal inconsistency.
pub fn segment_indices(names: &Vec<String>) -> (r: Result<Vec<u32>, MatrixErr>)
    ensures
        r is Ok <==> forall|j: int| 0 <= j < names.len() ==> segment_index_of(#[trigger] names@[j]@) is Some,
        r matches Ok(v) ==> v.len() == names.len() && forall|j: int|
            0 <= j < names.len() ==> segment_index_of(#[trigger] names@[j]@) == Some(v@[j]),
        r matches Err(e) ==> exists|j: int|
            0 <= j < names.len() && segment_index_of(#[trigger] names@[j]@) is None && (forall|k: int|
                0 <= k < j ==> segment_index_of(#[trigger] names@[k]@) is Some) && (e matches MatrixErr::General(s) && s@ == names@[j]@),
{
    let mut v: Vec<u32> = Vec::new();
    let mut j: usize = 0;
    while j < names.len()
        invariant
            j <= names.len(),
            v.len() == j,
            forall|k: int| 0 <= k < j ==> segment_index_of(#[trigger] names@[k]@) == Some(v@[k]),
        decreases names.len() - j,
    {
        match parse_segment_name(names[j].as_str()) {
            Some(i) => {
                v.push(i);
            },
            None => {
                return Err(MatrixErr::General(names[j].clone()));
            },
        }
        j = j + 1;
    }
    Ok(v)
}

/// The largest element of `s`, or 0 when `s` is empty.
pub open spec fn seq_max(s: Seq<u32>) -> int
    decreases s.len(),
{
    if s.len() == 0 {
        0
    } else {
        let m = seq_max(s.drop_last());
        if s.last() > m { s.last() as int } else { m }
    }
}

/// The segment that receives the next message of a room whose segments carry
/// `indices`: the highest message segment, or segment 1 when only the
/// configuration exists. A room without segments does not exist.
pub fn current_segment(room: &str, indices: &Vec<u32>) -> (r: Result<u32, MatrixErr>)
    ensures
        r is Err <==> indices.len() == 0,
        r matches Err(e) ==> (e matches MatrixErr::RoomNotFound(s) && s@ == room@),
        r matches Ok(k) ==> k == if seq_max(indices@) >= 1 { seq_max(indices@) } else { 1 },
{
    if indices.len() == 0 {
        return Err(MatrixErr::RoomNotFound(room.to_owned()));
    }
    let mut best: u32 = 1;
    let mut i: usize = 0;
    while i < indices.len()
        invariant
            i <= indices.len(),
            best == if seq_max(indices@.take(i as int)) >= 1 {
                seq_max(indices@.take(i as int))
            } else {
                1
            },
        decreases indices.len() - i,
    {
        assert(indices@.take(i + 1).drop_last() =~= indices@.take(i as int));
        if indices[i] > best {
            best = indices[i];
        }
        i = i + 1;
    }
    assert(indices@.take(i as int) =~= indices@);
    Ok(best)
}

/// Where a write goes, given the current segment and how many messages it
/// holds: the current segment while it is below capacity, else the next one.
/// `None` when the current segment is full and no higher index exists.
pub fn place_write(current: u32, doc_count: u64) -> (r: Option<u32>)
    ensures
        doc_count < MAX_MSGS_PER_SEGMENT ==> r == Some(current),
        doc_count >= MAX_MSGS_PER_SEGMENT && current < u32::MAX ==> r == Some((current + 1) as u32),
        doc_count >= MAX_MSGS_PER_SEGMENT && current == u32::MAX ==> r is None,
{
    if doc_count < MAX_MSGS_PER_SEGMENT {
        Some(current)
    } else if current < u32::MAX {
        Some(current + 1)
    } else {
        None
    }
}

/// Names that the document store reserves for itself.
pub open spec fn is_reserved_name(name: Seq<char>) -> bool {
    ||| name == seq!['a', 'd', 'm', 'i', 'n']
    ||| name == seq!['c', 'o', 'n', 'f', 'i', 'g']
    ||| name == seq!['l', 'o', 'c', 'a', 'l']
}

/// Whether `name` may not be used for a room.
pub fn is_illegal_room_name(name: &str) -> (r: bool)
    ensures
        r == is_reserved_name(name@),
{
    proof {
        reveal_strlit("admin");
        reveal_strlit("config");
        reveal_strlit("local");
        assert("admin"@ =~= seq!['a', 'd', 'm', 'i', 'n']);
        assert("config"@ =~= seq!['c', 'o', 'n', 'f', 'i', 'g']);
        assert("local"@ =~= seq!['l', 'o', 'c', 'a', 'l']);
    }
    str_eq(name, "admin") || str_eq(name, "config") || str_eq(name, "local")
}

/// Decides whether a room may be created, given the segment indices that
/// already exist under its name.
pub fn check_new_room(room: &str, indices: &Vec<u32>) -> (r: Result<(), MatrixErr>)
    ensures
        is_reserved_name(room@) ==> (r matches Err(MatrixErr::IllegalRoomName(s)) && s@ == room@),
        !is_reserved_name(room@) && indices@.contains(CONFIG_SEGMENT) ==> (r matches Err(
            MatrixErr::RoomAlreadyExists(s),
        ) && s@ == room@),
        !is_reserved_name(room@) && !indices@.contains(CONFIG_SEGMENT) ==> r is Ok,
{
    if is_illegal_room_name(room) {
        return Err(MatrixErr::IllegalRoomName(room.to_owned()));
    }
    let mut i: usize = 0;
    while i < indices.len()
        invariant
            i <= indices.len(),
            !is_reserved_name(room@),
            forall|k: int| 0 <= k < i ==> indices@[k] != CONFIG_SEGMENT,
        decreases indices.len() - i,
    {
        if indices[i] == CONFIG_SEGMENT {
            return Err(MatrixErr::RoomAlreadyExists(room.to_owned()));
        }
        i = i + 1;
    }
    Ok(())
}

/// The next step of creating a room.
#[derive(Debug, PartialEq, Eq)]
pub enum CreateStep {
    /// List the room's segments on the write shard, then ask again.
    ListSegments,
    /// Store the configuration in the configuration segment; the room exists then.
    InsertConfig,
    /// Creation is refused.
    Fail(MatrixErr),
}

/// Decides the next step of creating `room`, given the listing of its
/// segment indices once there is one. A reserved name is refused before
/// anything is listed.
pub fn create_room_step(room: &str, listing: Option<&Vec<u32>>) -> (r: CreateStep)
    ensures
        is_reserved_name(room@) ==> (r matches CreateStep::Fail(MatrixErr::IllegalRoomName(s)) && s@ == room@),
        !is_reserved_name(room@) && listing is None ==> r == CreateStep::ListSegments,
        !is_reserved_name(room@) && (listing matches Some(v) && v@.contains(CONFIG_SEGMENT)) ==> (r matches CreateStep::Fail(
            MatrixErr::RoomAlreadyExists(s),
        ) && s@ == room@),
        !is_reserved_name(room@) && (listing matches Some(v) && !v@.contains(CONFIG_SEGMENT)) ==> r
            == CreateStep::InsertConfig,
{
    if is_illegal_room_name(room) {
        return CreateStep::Fail(MatrixErr::IllegalRoomName(room.to_owned()));
    }
    match listing {
        None => CreateStep::ListSegments,
        Some(indices) => match check_new_room(room, indices) {
            Ok(()) => CreateStep::InsertConfig,
            Err(e) => CreateStep::Fail(e),
        },
    }
}

/// Admits a message by `author` to `room`, given the segment indices listed
/// on the write shard and the configuration read from the regular shard.
/// A room without segments does not exist; a room without configuration is
/// inconsistent; an author not in the configuration is refused. Otherwise the
/// result is the current segment, whose message count decides the placement.
pub fn admit_write(room: &str, author: &str, indices: &Vec<u32>, conf: Option<&RoomConfig>) -> (r: Result<
    u32,
    MatrixErr,
>)
    ensures
        indices.len() == 0 ==> (r matches Err(MatrixErr::RoomNotFound(s)) && s@ == room@),
        indices.len() > 0 && conf is None ==> r matches Err(MatrixErr::General(_)),
        indices.len() > 0 && (conf matches Some(c) && !(exists|i: int|
            0 <= i < c.allowed_users@.len() && (#[trigger] c.allowed_users@[i])@ == author@)) ==> (r matches Err(
            MatrixErr::NotInRoom(s),
        ) && s@ == room@),
        indices.len() > 0 && (conf matches Some(c) && exists|i: int|
            0 <= i < c.allowed_users@.len() && (#[trigger] c.allowed_users@[i])@ == author@) ==> r == Ok::<
            u32,
            MatrixErr,
        >(if seq_max(indices@) >= 1 { seq_max(indices@) as u32 } else { 1u32 }),
{
    let current = match current_segment(room, indices) {
        Ok(k) => k,
        Err(e) => {
            return Err(e);
        },
    };
    match conf {
        None => Err(MatrixErr::General(room.to_owned())),
        Some(c) => match c.check_access(room, author) {
            Ok(()) => Ok(current),
            Err(e) => Err(e),
        },
    }
}

/// Strictly decreasing, hence free of duplicates.
pub open spec fn strictly_descending(s: Seq<u32>) -> bool {
    forall|i: int, j: int| 0 <= i < j < s.len() ==> #[trigger] s[i] > #[trigger] s[j]
}

/// Inserts `x` at its place in the strictly descending `v`, unless present.
fn insert_descending(v: &mut Vec<u32>, x: u32)
    requires
        strictly_descending(old(v)@),
    ensures
        strictly_descending(final(v)@),
        forall|y: u32| final(v)@.contains(y) <==> (old(v)@.contains(y) || y == x),
{
    let mut p: usize = 0;
    while p < v.len() && v[p] > x
        invariant
            p <= v.len(),
            v@ == old(v)@,
            forall|i: int| 0 <= i < p ==> v@[i] > x,
        decreases v.len() - p,
    {
        p = p + 1;
    }
    if p < v.len() && v[p] == x {
        assert(v@[p as int] == x);
        return;
    }
    let ghost before = v@;
    v.insert(p, x);
    assert(v@ =~= before.insert(p as int, x));
    assert forall|y: u32| v@.contains(y) <==> (before.contains(y) || y == x) by {
        if before.contains(y) {
            let i = choose|i: int| 0 <= i < before.len() && before[i] == y;
            if i < p {
                assert(v@[i] == y);
            } else {
                assert(v@[i + 1] == y);
            }
        }
        if y == x {
            assert(v@[p as int] == y);
        }
        if v@.contains(y) {
            let i = choose|i: int| 0 <= i < v@.len() && v@[i] == y;
            if i < p {
                assert(before[i] == y);
            } else if i > p {
                assert(before[i - 1] == y);
            }
        }
    }
    assert(before == old(v)@);
    assert(forall|y: u32| v@.contains(y) <==> (old(v)@.contains(y) || y == x));
}

/// The message segments among `indices` (all but the configuration segment),
/// each once, highest first: the order in which a bounded read scans them.
pub fn descending_segments(indices: &Vec<u32>) -> (r: Vec<u32>)
    ensures
        strictly_descending(r@),
        forall|x: u32| r@.contains(x) <==> (indices@.contains(x) && x != CONFIG_SEGMENT),
{
    let mut out: Vec<u32> = Vec::new();
    let mut i: usize = 0;
    while i < indices.len()
        invariant
            i <= indices.len(),
            strictly_descending(out@),
            forall|x: u32|
                out@.contains(x) <==> (indices@.take(i as int).contains(x) && x != CONFIG_SEGMENT),
        decreases indices.len() - i,
    {
        let ghost prefix = indices@.take(i as int);
        assert(indices@.take(i + 1) =~= prefix.push(indices@[i as int]));
        let x = indices[i];
        if x != CONFIG_SEGMENT {
            insert_descending(&mut out, x);
        }
        proof {
            assert forall|y: u32|
                out@.contains(y) <==> (indices@.take(i + 1).contains(y) && y != CONFIG_SEGMENT) by {
                vstd::seq_lib::lemma_seq_contains_after_push(prefix, x, y);
            }
        }
        i = i + 1;
    }
    assert(indices@.take(i as int) =~= indices@);
    out
}

/// A strictly descending run of positive 32-bit indices has at most
/// `u32::MAX` elements.
proof fn lemma_descending_len(s: Seq<u32>)
    requires
        strictly_descending(s),
        forall|i: int| 0 <= i < s.len() ==> #[trigger] s[i] != CONFIG_SEGMENT,
    ensures
        s.len() <= u32::MAX,
{
    if s.len() > 0 {
        lemma_descending_gap(s, s.len() - 1);
        assert(s[s.len() - 1] != CONFIG_SEGMENT);
    }
}

proof fn lemma_descending_gap(s: Seq<u32>, k: int)
    requires
        strictly_descending(s),
        0 <= k < s.len(),
    ensures
        s[0] - s[k] >= k,
    decreases k,
{
    if k > 0 {
        lemma_descending_gap(s, k - 1);
        assert(s[k - 1] > s[k]);
    }
}

/// The state of a bounded read, seen mathematically.
pub struct ReadScanView {
    /// Message segments in scan order, highest first.
    pub order: Seq<u32>,
    /// The number of messages asked for.
    pub wanted: nat,
    /// The messages gathered so far, segment after segment.
    pub messages: Seq<MessageView>,
    /// The number of segments read so far.
    pub read: nat,
}

impl ReadScanView {
    /// The segment to read next: the next one in order, as long as fewer
    /// messages than wanted were gathered (the first segment is always read).
    pub open spec fn next(self) -> Option<u32> {
        if self.read < self.order.len() && (self.read == 0 || self.messages.len() < self.wanted) {
            Some(self.order[self.read as int])
        } else {
            None
        }
    }
}

/// A bounded backward read over a room's segments: the caller reads the
/// segment that `next_segment` names and hands its messages to `record`,
/// until `next_segment` says `None`.
pub struct ReadScan {
    order: Vec<u32>,
    wanted: usize,
    messages: Vec<Message>,
    read: u32,
}

impl View for ReadScan {
    type V = ReadScanView;

    closed spec fn view(&self) -> ReadScanView {
        ReadScanView {
            order: self.order@,
            wanted: self.wanted as nat,
            messages: views(self.messages@),
            read: self.read as nat,
        }
    }
}

impl ReadScan {
    /// Internal consistency of a scan.
    pub closed spec fn wf(&self) -> bool {
        &&& strictly_descending(self.order@)
        &&& forall|i: int| 0 <= i < self.order@.len() ==> #[trigger] self.order@[i] != CONFIG_SEGMENT
        &&& self.read <= self.order@.len()
    }

    /// Starts a read of at least `wanted` messages over the segments `indices`.
    pub fn new(indices: &Vec<u32>, wanted: usize) -> (r: ReadScan)
        ensures
            r.wf(),
            strictly_descending(r@.order),
            forall|x: u32| r@.order.contains(x) <==> (indices@.contains(x) && x != CONFIG_SEGMENT),
            r@.wanted == wanted,
            r@.messages == Seq::<MessageView>::empty(),
            r@.read == 0,
    {
        let order = descending_segments(indices);
        proof {
            assert forall|i: int| 0 <= i < order@.len() implies #[trigger] order@[i] != CONFIG_SEGMENT by {
                assert(order@.contains(order@[i]));
            }
        }
        let r = ReadScan { order, wanted, messages: Vec::new(), read: 0 };
        assert(views(r.messages@) =~= Seq::<MessageView>::empty());
        r
    }

    /// The segment to read next, if the scan goes on.
    pub fn next_segment(&self) -> (r: Option<u32>)
        requires
            self.wf(),
        ensures
            r == self@.next(),
    {
        if (self.read as usize) < self.order.len() && (self.read == 0 || self.messages.len() < self.wanted) {
            Some(self.order[self.read as usize])
        } else {
            None
        }
    }

    /// Records the messages of the segment that `next_segment` named.
    pub fn record(&mut self, batch: Vec<Message>)
        requires
            old(self).wf(),
            old(self)@.next() is Some,
        ensures
            final(self).wf(),
            final(self)@.order == old(self)@.order,
            final(self)@.wanted == old(self)@.wanted,
            final(self)@.read == old(self)@.read + 1,
            final(self)@.messages == old(self)@.messages + views(batch@),
    {
        proof {
            lemma_descending_len(self.order@);
        }
        let mut batch = batch;
        let ghost b = views(batch@);
        let ghost m = views(self.messages@);
        self.messages.append(&mut batch);
        assert(views(self.messages@) =~= m + b);
        self.read = self.read + 1;
    }

    /// Ends the scan: every message gathered, in segment order, and the
    /// number of segments read.
    pub fn finish(self) -> (r: (Vec<Message>, u32))
        ensures
            views(r.0@) == self@.messages,
            r.1 == self@.read,
    {
        (self.messages, self.read)
    }
}

} // verus!
