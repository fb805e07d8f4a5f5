use matrix::errors::MatrixErr;
use matrix::messaging::{merge_reads, normalize_messages, room_key, Message, RoomConfig};
use matrix::segments::{
    admit_write, create_room_step, CreateStep, check_new_room, current_segment, descending_segments, is_illegal_room_name, parse_segment_name, place_write,
    segment_indices, segment_name, ReadScan, MAX_MSGS_PER_SEGMENT,
};
use std::collections::BTreeMap;

fn msg(ts: i64, author: &str, content: &str) -> Message {
    Message { timestamp: ts, author: author.to_string(), content: content.to_string() }
}

/// A room held in memory: segment index to messages.
struct Room {
    segments: BTreeMap<u32, Vec<Message>>,
}

impl Room {
    fn create(name: &str) -> Room {
        let indices: Vec<u32> = vec![];
        check_new_room(name, &indices).unwrap();
        let mut segments = BTreeMap::new();
        segments.insert(0, vec![]);
        Room { segments }
    }

    fn indices(&self) -> Vec<u32> {
        self.segments.keys().copied().collect()
    }

    fn write(&mut self, m: Message) -> u32 {
        let current = current_segment("room", &self.indices()).unwrap();
        let count = self.segments.get(&current).map_or(0, |v| v.len() as u64);
        let target = place_write(current, count).unwrap();
        self.segments.entry(target).or_default().push(m);
        target
    }

    fn read(&self, n: usize) -> (Vec<Message>, u32) {
        let mut scan = ReadScan::new(&self.indices(), n);
        while let Some(seg) = scan.next_segment() {
            scan.record(self.segments[&seg].clone());
        }
        scan.finish()
    }
}

#[test]
fn segments_rotate_at_capacity() {
    assert_eq!(MAX_MSGS_PER_SEGMENT, 3);
    let mut room = Room::create("general");
    let targets: Vec<u32> = (0..4).map(|i| room.write(msg(i, "ann", "hi"))).collect();
    assert_eq!(targets, vec![1, 1, 1, 2]);
    assert_eq!(room.segments[&1].len(), 3);
    assert_eq!(room.segments[&2].len(), 1);
    assert_eq!(room.write(msg(5, "ann", "fifth")), 2);
    assert_eq!(segment_name(1), "chat_1");
    assert_eq!(segment_name(2), "chat_2");
}

#[test]
fn placement_edges() {
    assert_eq!(place_write(4, 0), Some(4));
    assert_eq!(place_write(4, 2), Some(4));
    assert_eq!(place_write(4, 3), Some(5));
    assert_eq!(place_write(4, 10), Some(5));
    assert_eq!(place_write(u32::MAX, 3), None);
    assert_eq!(place_write(u32::MAX, 1), Some(u32::MAX));
}

#[test]
fn current_segment_of_listing() {
    assert_eq!(current_segment("r", &vec![0]), Ok(1));
    assert_eq!(current_segment("r", &vec![0, 3, 1, 2]), Ok(3));
    assert_eq!(current_segment("nosuchroom", &vec![]), Err(MatrixErr::RoomNotFound("nosuchroom".to_string())));
}

#[test]
fn room_lifecycle() {
    let name = room_key("General");
    assert_eq!(name, "general");
    assert_eq!(check_new_room(&name, &vec![]), Ok(()));
    assert_eq!(check_new_room(&name, &vec![0]), Err(MatrixErr::RoomAlreadyExists("general".to_string())));
    assert_eq!(check_new_room("admin", &vec![]), Err(MatrixErr::IllegalRoomName("admin".to_string())));
    let missing = current_segment("nosuchroom", &vec![]);
    assert_eq!(missing, Err(MatrixErr::RoomNotFound("nosuchroom".to_string())));
    assert_eq!(create_room_step(&name, Some(&vec![])), CreateStep::InsertConfig);
    assert_eq!(
        create_room_step(&name, Some(&vec![0])),
        CreateStep::Fail(MatrixErr::RoomAlreadyExists("general".to_string()))
    );
    let conf = RoomConfig { allowed_users: vec!["ann".to_string()] };
    assert_eq!(
        admit_write(&room_key("nosuchroom"), "ann", &vec![], Some(&conf)),
        Err(MatrixErr::RoomNotFound("nosuchroom".to_string()))
    );
}

#[test]
fn reserved_names() {
    assert!(is_illegal_room_name("admin"));
    assert!(is_illegal_room_name("config"));
    assert!(is_illegal_room_name("local"));
    assert!(!is_illegal_room_name("Admin"));
    assert!(!is_illegal_room_name("admins"));
    assert!(is_illegal_room_name(&room_key("LOCAL")));
    assert_eq!(room_key(""), "");
}

#[test]
fn segment_names_parse_back() {
    assert_eq!(parse_segment_name("chat_0"), Some(0));
    assert_eq!(parse_segment_name("chat_12"), Some(12));
    assert_eq!(parse_segment_name("chat_007"), Some(7));
    assert_eq!(parse_segment_name("chat_4294967295"), Some(u32::MAX));
    assert_eq!(parse_segment_name("chat_4294967296"), None);
    assert_eq!(parse_segment_name("chat_99999999999"), None);
    assert_eq!(parse_segment_name("chat_"), None);
    assert_eq!(parse_segment_name("chat_1x"), None);
    assert_eq!(parse_segment_name("chats1"), None);
    assert_eq!(parse_segment_name("chat-1"), None);
    assert_eq!(parse_segment_name("Chat_1"), None);
    assert_eq!(parse_segment_name(""), None);
    for i in [0u32, 9, 10, 99, 100, 12345, u32::MAX] {
        assert_eq!(parse_segment_name(&segment_name(i)), Some(i));
    }
}

#[test]
fn malformed_listing_is_internal_error() {
    let names = vec!["chat_0".to_string(), "chat_2".to_string()];
    assert_eq!(segment_indices(&names), Ok(vec![0, 2]));
    let bad = vec!["chat_0".to_string(), "notes".to_string(), "chat_x".to_string()];
    assert_eq!(segment_indices(&bad), Err(MatrixErr::General("notes".to_string())));
}

#[test]
fn scan_order_skips_configuration() {
    assert_eq!(descending_segments(&vec![0, 2, 5, 1, 5]), vec![5, 2, 1]);
    assert_eq!(descending_segments(&vec![0]), Vec::<u32>::new());
}

#[test]
fn bounded_read_stops_once_enough() {
    let mut room = Room::create("r");
    for i in 0..7 {
        room.write(msg(i, "ann", "m"));
    }
    let (all, read) = room.read(100);
    assert_eq!(all.len(), 7);
    assert_eq!(read, 3);
    let (newest, read) = room.read(1);
    assert_eq!(read, 1);
    assert_eq!(newest, vec![msg(6, "ann", "m")]);
    let (some, read) = room.read(2);
    assert_eq!(read, 2);
    assert_eq!(some.len(), 4);
    assert_eq!(some[0], msg(6, "ann", "m"));
    assert_eq!(some[1], msg(3, "ann", "m"));
    let (some, read) = room.read(5);
    assert_eq!(read, 3);
    assert_eq!(some.len(), 7);
    let (first, read) = room.read(0);
    assert_eq!(read, 1);
    assert_eq!(first.len(), 1);
    let empty = Room::create("e");
    assert_eq!(empty.read(5), (vec![], 0));
}

#[test]
fn dual_read_merges_without_duplicates() {
    let a = msg(1, "ann", "A");
    let b = msg(2, "bob", "B");
    let c = msg(3, "cid", "C");
    let mut x = Room::create("r");
    x.write(a.clone());
    x.write(b.clone());
    let mut y = Room::create("r");
    y.write(b.clone());
    y.write(c.clone());
    let (messages, read) = merge_reads(x.read(3), y.read(3));
    assert_eq!(messages, vec![a, b, c]);
    assert_eq!(read, 1);
}

#[test]
fn merge_reports_deeper_scan() {
    let (m, read) = merge_reads((vec![msg(1, "a", "x")], 4), (vec![], 2));
    assert_eq!(m.len(), 1);
    assert_eq!(read, 4);
    let (_, read) = merge_reads((vec![], 1), (vec![], 5));
    assert_eq!(read, 5);
}

#[test]
fn normalized_order_is_timestamp_author_content() {
    let out = normalize_messages(vec![
        msg(2, "b", "x"),
        msg(1, "z", "z"),
        msg(2, "a", "y"),
        msg(2, "a", "b"),
        msg(2, "b", "x"),
        msg(-5, "q", ""),
    ]);
    assert_eq!(out, vec![msg(-5, "q", ""), msg(1, "z", "z"), msg(2, "a", "b"), msg(2, "a", "y"), msg(2, "b", "x")]);
    assert_eq!(normalize_messages(vec![]), vec![]);
}

#[test]
fn access_follows_allowed_users() {
    let conf = RoomConfig { allowed_users: vec!["ann".to_string(), "bob".to_string()] };
    assert!(conf.allows("ann"));
    assert!(conf.allows("bob"));
    assert!(!conf.allows("Ann"));
    assert!(!conf.allows(""));
    assert!(!RoomConfig { allowed_users: vec![] }.allows("ann"));
    assert_eq!(conf.check_access("general", "bob"), Ok(()));
    assert_eq!(conf.check_access("general", "eve"), Err(MatrixErr::NotInRoom("general".to_string())));
}

#[test]
fn creation_steps() {
    assert_eq!(create_room_step("admin", None), CreateStep::Fail(MatrixErr::IllegalRoomName("admin".to_string())));
    assert_eq!(create_room_step("config", Some(&vec![0])), CreateStep::Fail(MatrixErr::IllegalRoomName("config".to_string())));
    assert_eq!(create_room_step("general", None), CreateStep::ListSegments);
    assert_eq!(create_room_step("general", Some(&vec![])), CreateStep::InsertConfig);
    assert_eq!(create_room_step("general", Some(&vec![1, 2])), CreateStep::InsertConfig);
    assert_eq!(
        create_room_step("general", Some(&vec![0, 1])),
        CreateStep::Fail(MatrixErr::RoomAlreadyExists("general".to_string()))
    );
}

#[test]
fn write_admission() {
    let conf = RoomConfig { allowed_users: vec!["ann".to_string()] };
    assert_eq!(admit_write("nosuchroom", "ann", &vec![], None), Err(MatrixErr::RoomNotFound("nosuchroom".to_string())));
    assert_eq!(admit_write("nosuchroom", "ann", &vec![], Some(&conf)), Err(MatrixErr::RoomNotFound("nosuchroom".to_string())));
    assert!(matches!(admit_write("r", "ann", &vec![0], None), Err(MatrixErr::General(_))));
    assert_eq!(admit_write("r", "eve", &vec![0, 2], Some(&conf)), Err(MatrixErr::NotInRoom("r".to_string())));
    assert_eq!(admit_write("r", "ann", &vec![0], Some(&conf)), Ok(1));
    assert_eq!(admit_write("r", "ann", &vec![0, 4, 2], Some(&conf)), Ok(4));
}
