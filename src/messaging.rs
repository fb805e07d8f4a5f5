//! Messages, room configuration, and the ordering and merging of read results.

use crate::errors::MatrixErr;
use crate::text::{compare_str, lemma_lex_asymmetric, lemma_lex_irreflexive, lemma_lex_total, lemma_lex_transitive, lex_lt, str_eq};
use std::cmp::Ordering;
use vstd::prelude::*;

verus! {

/// One chat message. `timestamp` is in milliseconds since the Unix epoch.
/// The derived order compares timestamp, author and content in turn, as
/// `msg_lt` does.
#[derive(Debug, Clone, PartialEq, Eq, PartialOrd, Ord, Hash)]
pub struct Message {
    pub timestamp: i64,
    pub author: String,
    pub content: String,
}

/// A room's configuration, stored once in its configuration segment.
#[derive(Debug, Clone, PartialEq, Eq)]
pub struct RoomConfig {
    pub allowed_users: Vec<String>,
}

impl RoomConfig {
    /// Whether `user` may write to the room.
    pub fn allows(&self, user: &str) -> (r: bool)
        ensures
            r == exists|i: int| 0 <= i < self.allowed_users@.len() && (#[trigger] self.allowed_users@[i])@ == user@,
    {
        let mut i: usize = 0;
        while i < self.allowed_users.len()
            invariant
                i <= self.allowed_users.len(),
                forall|k: int| 0 <= k < i ==> (#[trigger] self.allowed_users@[k])@ != user@,
            decreases self.allowed_users.len() - i,
        {
            if str_eq(self.allowed_users[i].as_str(), user) {
                return true;
            }
            i = i + 1;
        }
        false
    }

    /// Admits `user` to writes in `room`, or refuses with `NotInRoom`.
    pub fn check_access(&self, room: &str, user: &str) -> (r: Result<(), MatrixErr>)
        ensures
            r is Ok <==> exists|i: int| 0 <= i < self.allowed_users@.len() && (#[trigger] self.allowed_users@[i])@ == user@,
            r matches Err(e) ==> (e matches MatrixErr::NotInRoom(s) && s@ == room@),
    {
        if self.allows(user) {
            Ok(())
        } else {
            Err(MatrixErr::NotInRoom(room.to_owned()))
        }
    }
}

/// The text that a room name is folded to before routing and storage.
pub uninterp spec fn lower_of(s: Seq<char>) -> Seq<char>;

/// Relies on `str::to_lowercase`: the result depends on the characters alone,
/// and an empty string stays empty.
#[verifier::external_body]
fn lowercase(s: &str) -> (r: String)
    ensures
        r@ == lower_of(s@),
        s@.len() == 0 ==> r@.len() == 0,
{
    s.to_lowercase()
}

/// The key under which a room is routed and stored: its name in lower case.
/// Every room operation (creation, writes, reads) folds the name it is given
/// with it; the functions it hands the key to take it as it is.
pub fn room_key(name: &str) -> (r: String)
    ensures
        r@ == lower_of(name@),
{
    lowercase(name)
}

/// The mathematical value of a message.
pub struct MessageView {
    pub timestamp: i64,
    pub author: Seq<char>,
    pub content: Seq<char>,
}

impl View for Message {
    type V = MessageView;

    open spec fn view(&self) -> MessageView {
        MessageView { timestamp: self.timestamp, author: self.author@, content: self.content@ }
    }
}

/// The total order on messages: by timestamp, then author, then content.
pub open spec fn msg_lt(a: MessageView, b: MessageView) -> bool {
    ||| a.timestamp < b.timestamp
    ||| a.timestamp == b.timestamp && lex_lt(a.author, b.author)
    ||| a.timestamp == b.timestamp && a.author == b.author && lex_lt(a.content, b.content)
}

/// The values of a sequence of messages.
pub open spec fn views(s: Seq<Message>) -> Seq<MessageView> {
    s.map_values(|m: Message| m@)
}

/// Strictly increasing in the message order, hence free of duplicates.
pub open spec fn strictly_sorted(s: Seq<MessageView>) -> bool {
    forall|i: int, j: int| 0 <= i < j < s.len() ==> msg_lt(#[trigger] s[i], #[trigger] s[j])
}

/// The message order is a strict total order.
pub proof fn lemma_msg_order(a: MessageView, b: MessageView, c: MessageView)
    ensures
        !msg_lt(a, a),
        !(msg_lt(a, b) && msg_lt(b, a)),
        a == b || msg_lt(a, b) || msg_lt(b, a),
        msg_lt(a, b) && msg_lt(b, c) ==> msg_lt(a, c),
{
    lemma_lex_irreflexive(a.author);
    lemma_lex_irreflexive(a.content);
    lemma_lex_asymmetric(a.author, b.author);
    lemma_lex_asymmetric(a.content, b.content);
    lemma_lex_total(a.author, b.author);
    lemma_lex_total(a.content, b.content);
    if lex_lt(a.author, b.author) && lex_lt(b.author, c.author) {
        lemma_lex_transitive(a.author, b.author, c.author);
    }
    if lex_lt(a.content, b.content) && lex_lt(b.content, c.content) {
        lemma_lex_transitive(a.content, b.content, c.content);
    }
}

/// The normalised form of a set of messages is unique: two strictly sorted
/// sequences with the same messages are equal. So `normalize_messages` and
/// `merge_reads` determine their output from the messages alone.
pub proof fn lemma_normalized_unique(s: Seq<MessageView>, t: Seq<MessageView>)
    requires
        strictly_sorted(s),
        strictly_sorted(t),
        forall|x: MessageView| s.contains(x) <==> t.contains(x),
    ensures
        s == t,
    decreases s.len(),
{
    if s.len() == 0 {
        if t.len() > 0 {
            assert(t.contains(t[0]));
        }
        assert(s =~= t);
    } else if t.len() == 0 {
        assert(s.contains(s[0]));
    } else {
        assert(s.contains(s[0]));
        assert(t.contains(t[0]));
        let j = choose|j: int| 0 <= j < t.len() && t[j] == s[0];
        let k = choose|k: int| 0 <= k < s.len() && s[k] == t[0];
        if j > 0 {
            assert(msg_lt(t[0], t[j]));
            if k > 0 {
                assert(msg_lt(s[0], s[k]));
                lemma_msg_order(t[0], s[0], t[0]);
            } else {
                lemma_msg_order(t[0], t[0], t[0]);
            }
        }
        assert(s[0] == t[0]);
        let s1 = s.drop_first();
        let t1 = t.drop_first();
        assert forall|x: MessageView| s1.contains(x) <==> t1.contains(x) by {
            if s1.contains(x) {
                let a = choose|a: int| 0 <= a < s1.len() && s1[a] == x;
                assert(s[a + 1] == x);
                assert(msg_lt(s[0], x));
                lemma_msg_order(x, x, x);
                assert(t.contains(x));
                let b = choose|b: int| 0 <= b < t.len() && t[b] == x;
                assert(b != 0);
                assert(t1[b - 1] == x);
            }
            if t1.contains(x) {
                let a = choose|a: int| 0 <= a < t1.len() && t1[a] == x;
                assert(t[a + 1] == x);
                assert(msg_lt(t[0], x));
                lemma_msg_order(x, x, x);
                assert(s.contains(x));
                let b = choose|b: int| 0 <= b < s.len() && s[b] == x;
                assert(b != 0);
                assert(s1[b - 1] == x);
            }
        }
        lemma_normalized_unique(s1, t1);
        assert(s =~= seq![s[0]] + s1);
        assert(t =~= seq![t[0]] + t1);
    }
}

/// Compares two messages in the message order.
pub fn compare_messages(a: &Message, b: &Message) -> (r: Ordering)
    ensures
        (r == Ordering::Less) == msg_lt(a@, b@),
        (r == Ordering::Equal) == (a@ == b@),
        (r == Ordering::Greater) == msg_lt(b@, a@),
{
    proof {
        lemma_msg_order(a@, b@, a@);
    }
    if a.timestamp < b.timestamp {
        Ordering::Less
    } else if a.timestamp > b.timestamp {
        Ordering::Greater
    } else {
        match compare_str(a.author.as_str(), b.author.as_str()) {
            Ordering::Equal => compare_str(a.content.as_str(), b.content.as_str()),
            other => other,
        }
    }
}

/// Inserts `m` at its place in the strictly sorted `v`, unless a message equal
/// to it is already there.
fn insert_sorted(v: &mut Vec<Message>, m: Message)
    requires
        strictly_sorted(views(old(v)@)),
    ensures
        strictly_sorted(views(final(v)@)),
        forall|x: MessageView|
            views(final(v)@).contains(x) <==> (views(old(v)@).contains(x) || x == m@),
{
    let ghost old_views = views(v@);
    let mut p: usize = 0;
    loop
        invariant_except_break
            p <= v.len(),
            v@ == old(v)@,
            forall|i: int| 0 <= i < p ==> msg_lt(#[trigger] views(v@)[i], m@),
        ensures
            p <= v.len(),
            v@ == old(v)@,
            forall|i: int| 0 <= i < p ==> msg_lt(#[trigger] views(v@)[i], m@),
            p < v.len() ==> !msg_lt(views(v@)[p as int], m@),
        decreases v.len() - p,
    {
        if p >= v.len() {
            break;
        }
        match compare_messages(&v[p], &m) {
            Ordering::Less => {
                p = p + 1;
            },
            _ => {
                break;
            },
        }
    }
    if p < v.len() {
        if let Ordering::Equal = compare_messages(&v[p], &m) {
            assert(views(v@)[p as int] == m@);
            assert(views(v@).contains(m@));
            return;
        }
        assert forall|j: int| p <= j < old_views.len() implies msg_lt(m@, old_views[j]) by {
            lemma_msg_order(m@, old_views[p as int], old_views[j]);
            lemma_msg_order(old_views[p as int], m@, m@);
        }
    }
    let ghost mv = m@;
    v.insert(p, m);
    assert(views(v@) =~= old_views.insert(p as int, mv));
    assert forall|x: MessageView| views(v@).contains(x) <==> (old_views.contains(x) || x == mv) by {
        if old_views.contains(x) {
            let i = choose|i: int| 0 <= i < old_views.len() && old_views[i] == x;
            if i < p {
                assert(views(v@)[i] == x);
            } else {
                assert(views(v@)[i + 1] == x);
            }
        }
        if x == mv {
            assert(views(v@)[p as int] == x);
        }
        if views(v@).contains(x) {
            let i = choose|i: int| 0 <= i < views(v@).len() && views(v@)[i] == x;
            if i < p {
                assert(old_views[i] == x);
            } else if i > p {
                assert(old_views[i - 1] == x);
            }
        }
    }
    assert(forall|x: MessageView|
        views(v@).contains(x) <==> (views(old(v)@).contains(x) || x == m@));
}

/// Collapses equal messages to one and sorts the rest in the message order.
pub fn normalize_messages(msgs: Vec<Message>) -> (r: Vec<Message>)
    ensures
        strictly_sorted(views(r@)),
        forall|x: MessageView| views(r@).contains(x) <==> views(msgs@).contains(x),
{
    let ghost all = views(msgs@);
    let mut rest = msgs;
    let mut out: Vec<Message> = Vec::new();
    while rest.len() > 0
        invariant
            strictly_sorted(views(out@)),
            forall|x: MessageView|
                (views(out@).contains(x) || views(rest@).contains(x)) <==> all.contains(x),
        decreases rest.len(),
    {
        let ghost before = views(rest@);
        let m = rest.pop().unwrap();
        proof {
            assert(before =~= views(rest@).push(m@));
            assert forall|x: MessageView| before.contains(x) <==> (views(rest@).contains(x) || x == m@) by {
                if before.contains(x) {
                    let i = choose|i: int| 0 <= i < before.len() && before[i] == x;
                    if i < views(rest@).len() {
                        assert(views(rest@)[i] == x);
                    }
                }
                if views(rest@).contains(x) {
                    let i = choose|i: int| 0 <= i < views(rest@).len() && views(rest@)[i] == x;
                    assert(before[i] == x);
                }
                if x == m@ {
                    assert(before[before.len() - 1] == x);
                }
            }
        }
        insert_sorted(&mut out, m);
    }
    proof {
        assert forall|x: MessageView| !views(rest@).contains(x) by {}
    }
    out
}

/// Merges the two sides of a dual read: the union of both message sets with
/// equal messages collapsed and the rest in the message order, and the deeper
/// of the two segment counts.
pub fn merge_reads(regular: (Vec<Message>, u32), migration: (Vec<Message>, u32)) -> (r: (
    Vec<Message>,
    u32,
))
    ensures
        strictly_sorted(views(r.0@)),
        forall|x: MessageView|
            views(r.0@).contains(x) <==> (views(regular.0@).contains(x) || views(
                migration.0@,
            ).contains(x)),
        r.1 == if regular.1 >= migration.1 {
            regular.1
        } else {
            migration.1
        },
{
    let (mut all, read) = regular;
    let (mut more, mig_read) = migration;
    let ghost a = views(all@);
    let ghost b = views(more@);
    all.append(&mut more);
    proof {
        assert(views(all@) =~= a + b);
        assert forall|x: MessageView| views(all@).contains(x) <==> (a.contains(x) || b.contains(x)) by {
            if views(all@).contains(x) {
                let i = choose|i: int| 0 <= i < views(all@).len() && views(all@)[i] == x;
                if i < a.len() {
                    assert(a[i] == x);
                } else {
                    assert(b[i - a.len()] == x);
                }
            }
            if a.contains(x) {
                let i = choose|i: int| 0 <= i < a.len() && a[i] == x;
                assert(views(all@)[i] == x);
            }
            if b.contains(x) {
                let i = choose|i: int| 0 <= i < b.len() && b[i] == x;
                assert(views(all@)[i + a.len()] == x);
            }
        }
    }
    let merged = normalize_messages(all);
    let depth = if read >= mig_read {
        read
    } else {
        mig_read
    };
    (merged, depth)
}

} // verus!
