//! A chat room over lines of text.
//!
//! Who connects is asked for a name.  The first line is taken as the name;
//! where it is no name made of letters and digits, or the name of another
//! member, the connection is turned away.  A named member is shown who is in
//! the room; from then on each of its lines goes to every other named
//! member, as do the news of its coming and going.

use vstd::prelude::*;
use vstd::string::StringExecFns;
use crate::text::{matches_pattern, regex_accepts, trim, trimmed};

verus! {

/// One connection in the room; the name is empty until it is given.
#[derive(Clone, Debug, PartialEq, Eq)]
pub struct Member {
    pub conn: u64,
    pub name: String,
}

/// The mathematical content of a [`Member`].
pub struct MemberView {
    pub conn: u64,
    pub name: Seq<char>,
}

impl View for Member {
    type V = MemberView;

    open spec fn view(&self) -> MemberView {
        MemberView { conn: self.conn, name: self.name@ }
    }
}

/// What happens to the room.
#[derive(Clone, Debug, PartialEq, Eq)]
pub enum ChatEvent {
    /// A connection was accepted.
    Joined { conn: u64 },
    /// A line arrived, white space at its end removed.
    Line { conn: u64, text: String },
    /// A connection ended.
    Left { conn: u64 },
}

/// The mathematical content of a [`ChatEvent`].
pub enum ChatEventView {
    Joined { conn: u64 },
    Line { conn: u64, text: Seq<char> },
    Left { conn: u64 },
}

impl View for ChatEvent {
    type V = ChatEventView;

    open spec fn view(&self) -> ChatEventView {
        match *self {
            ChatEvent::Joined { conn } => ChatEventView::Joined { conn },
            ChatEvent::Line { conn, text } => ChatEventView::Line { conn, text: text@ },
            ChatEvent::Left { conn } => ChatEventView::Left { conn },
        }
    }
}

/// What the room asks to be done.
#[derive(Clone, Debug, PartialEq, Eq)]
pub enum ChatOutput {
    /// Write `text` to `conn`.
    Send { conn: u64, text: String },
    /// Shut the connection down.
    Shutdown { conn: u64 },
}

/// The mathematical content of a [`ChatOutput`].
pub enum ChatOutputView {
    Send { conn: u64, text: Seq<char> },
    Shutdown { conn: u64 },
}

impl View for ChatOutput {
    type V = ChatOutputView;

    open spec fn view(&self) -> ChatOutputView {
        match *self {
            ChatOutput::Send { conn, text } => ChatOutputView::Send { conn, text: text@ },
            ChatOutput::Shutdown { conn } => ChatOutputView::Shutdown { conn },
        }
    }
}

/// The contents of a list of members.
pub open spec fn member_views(members: Seq<Member>) -> Seq<MemberView> {
    members.map_values(|m: Member| m@)
}

/// The contents of a list of instructions.
pub open spec fn chat_output_views(outputs: Seq<ChatOutput>) -> Seq<ChatOutputView> {
    outputs.map_values(|o: ChatOutput| o@)
}

/// The pattern of a user name: letters and digits only.
pub open spec fn username_pattern() -> Seq<char> {
    "^[a-zA-Z0-9]*$"@
}

/// Whether `conn` is in the room.
pub open spec fn is_member(room: Seq<MemberView>, conn: u64) -> bool {
    exists|i: int| 0 <= i < room.len() && (#[trigger] room[i]).conn == conn
}

/// Where `conn` is in the room.
pub open spec fn member_index(room: Seq<MemberView>, conn: u64) -> int {
    choose|i: int| 0 <= i < room.len() && (#[trigger] room[i]).conn == conn
}

/// Whether some connection in the room has the name `name`.  A connection
/// that has given no name has the empty one.
pub open spec fn name_taken(room: Seq<MemberView>, name: Seq<char>) -> bool {
    exists|i: int| 0 <= i < room.len() && (#[trigger] room[i]).name == name
}

/// No connection is in the room twice.
pub open spec fn distinct(room: Seq<MemberView>) -> bool {
    forall|i: int, j: int|
        0 <= i < j < room.len() ==> (#[trigger] room[i]).conn != (#[trigger] room[j]).conn
}

/// The names in the room, in the order of arrival, with `", "` between.
pub open spec fn names_listed(room: Seq<MemberView>) -> Seq<char>
    decreases room.len(),
{
    if room.len() == 0 {
        Seq::<char>::empty()
    } else {
        let before = names_listed(room.drop_last());
        let name = room.last().name;
        if name.len() == 0 {
            before
        } else if before.len() == 0 {
            name
        } else {
            before + ", "@ + name
        }
    }
}

/// What a new member is told about the room.
pub open spec fn listing(room: Seq<MemberView>) -> Seq<char> {
    if names_listed(room).len() == 0 {
        "* The room is currently empty\n"@
    } else {
        "* The room contains: "@ + names_listed(room) + "\n"@
    }
}

/// `text` sent to every named member but `except`, in the order of arrival.
pub open spec fn broadcast(room: Seq<MemberView>, except: Option<u64>, text: Seq<char>) -> Seq<
    ChatOutputView,
>
    decreases room.len(),
{
    if room.len() == 0 {
        Seq::<ChatOutputView>::empty()
    } else {
        let before = broadcast(room.drop_last(), except, text);
        let m = room.last();
        if m.name.len() == 0 || except == Some(m.conn) {
            before
        } else {
            before.push(ChatOutputView::Send { conn: m.conn, text })
        }
    }
}

/// The room after a connection was accepted: it is asked for its name.  An
/// older record of the same connection goes.
pub open spec fn on_joined(room: Seq<MemberView>, conn: u64) -> (
    Seq<MemberView>,
    Seq<ChatOutputView>,
) {
    let rest = if is_member(room, conn) {
        room.remove(member_index(room, conn))
    } else {
        room
    };
    (
        rest.push(MemberView { conn, name: Seq::<char>::empty() }),
        seq![ChatOutputView::Send { conn, text: "Please enter your username...\n"@ }],
    )
}

/// The room after a line of `conn`.  `name_ok` says whether the line,
/// trimmed, was found to be a name of letters and digits.
pub open spec fn on_line(room: Seq<MemberView>, conn: u64, text: Seq<char>, name_ok: bool) -> (
    Seq<MemberView>,
    Seq<ChatOutputView>,
) {
    if !is_member(room, conn) {
        (room, Seq::<ChatOutputView>::empty())
    } else {
        let i = member_index(room, conn);
        if room[i].name.len() == 0 {
            let name = trimmed(text);
            if !name_ok || name_taken(room, name) {
                (
                    room,
                    seq![
                        ChatOutputView::Send { conn, text: "Invalid username...\n"@ },
                        ChatOutputView::Shutdown { conn },
                    ],
                )
            } else {
                (
                    room.update(i, MemberView { conn, name }),
                    seq![ChatOutputView::Send { conn, text: listing(room) }] + broadcast(
                        room,
                        Some(conn),
                        "* "@ + name + " has entered the room\n"@,
                    ),
                )
            }
        } else {
            (room, broadcast(room, Some(conn), "["@ + room[i].name + "] "@ + text + "\n"@))
        }
    }
}

/// The room after a connection ended: the named members that stay are told.
pub open spec fn on_left(room: Seq<MemberView>, conn: u64) -> (
    Seq<MemberView>,
    Seq<ChatOutputView>,
) {
    if !is_member(room, conn) {
        (room, Seq::<ChatOutputView>::empty())
    } else {
        let i = member_index(room, conn);
        let rest = room.remove(i);
        if room[i].name.len() == 0 {
            (rest, Seq::<ChatOutputView>::empty())
        } else {
            (rest, broadcast(rest, None, "* "@ + room[i].name + " has left the room\n"@))
        }
    }
}

/// The room after `event`, and the instructions that it brings.
pub open spec fn chat_step(room: Seq<MemberView>, event: ChatEventView, name_ok: bool) -> (
    Seq<MemberView>,
    Seq<ChatOutputView>,
) {
    match event {
        ChatEventView::Joined { conn } => on_joined(room, conn),
        ChatEventView::Line { conn, text } => on_line(room, conn, text, name_ok),
        ChatEventView::Left { conn } => on_left(room, conn),
    }
}

/// Whether `username` is made of letters and digits only.  `true` is given
/// only for a name that the pattern accepts.
pub fn is_valid_username(username: &str) -> (ok: bool)
    ensures
        ok ==> regex_accepts(username_pattern(), username@),
{
    matches_pattern("^[a-zA-Z0-9]*$", username)
}

proof fn lemma_member_index(room: Seq<MemberView>, i: int)
    requires
        distinct(room),
        0 <= i < room.len(),
    ensures
        is_member(room, room[i].conn),
        member_index(room, room[i].conn) == i,
{
    let j = member_index(room, room[i].conn);
    assert(room[j].conn == room[i].conn);
    if j < i {
        assert(room[j].conn != room[i].conn);
    } else if i < j {
        assert(room[i].conn != room[j].conn);
    }
}

/// The chat room.
pub struct Room {
    members: Vec<Member>,
}

impl View for Room {
    type V = Seq<MemberView>;

    closed spec fn view(&self) -> Seq<MemberView> {
        member_views(self.members@)
    }
}

impl Room {
    /// An empty room.
    pub fn new() -> (room: Room)
        ensures
            room@ == Seq::<MemberView>::empty(),
            distinct(room@),
    {
        let room = Room { members: Vec::new() };
        assert(room@ =~= Seq::<MemberView>::empty());
        room
    }

    /// The number of connections in the room.
    pub fn len(&self) -> (n: usize)
        ensures
            n == self@.len(),
    {
        self.members.len()
    }

    /// The name that `conn` has given; empty where it has given none, `None`
    /// where it is not in the room.
    pub fn name_of(&self, conn: u64) -> (r: Option<String>)
        requires
            distinct(self@),
        ensures
            match r {
                Some(name) => is_member(self@, conn) && name@ == self@[member_index(
                    self@,
                    conn,
                )].name,
                None => !is_member(self@, conn),
            },
    {
        match self.find(conn) {
            Some(i) => Some(self.members[i].name.clone()),
            None => None,
        }
    }

    fn find(&self, conn: u64) -> (r: Option<usize>)
        requires
            distinct(self@),
        ensures
            match r {
                Some(i) => i < self@.len() && is_member(self@, conn) && member_index(self@, conn)
                    == i,
                None => !is_member(self@, conn),
            },
    {
        let mut i: usize = 0;
        while i < self.members.len()
            invariant
                i <= self@.len(),
                distinct(self@),
                self@.len() == self.members@.len(),
                forall|k: int| 0 <= k < i ==> (#[trigger] self@[k]).conn != conn,
            decreases self.members@.len() - i,
        {
            assert(self@[i as int] == self.members@[i as int]@);
            if self.members[i].conn == conn {
                proof {
                    lemma_member_index(self@, i as int);
                }
                return Some(i);
            }
            i = i + 1;
        }
        None
    }

    fn has_name(&self, name: &String) -> (b: bool)
        ensures
            b == name_taken(self@, name@),
    {
        let mut i: usize = 0;
        while i < self.members.len()
            invariant
                i <= self@.len(),
                self@.len() == self.members@.len(),
                forall|k: int| 0 <= k < i ==> (#[trigger] self@[k]).name != name@,
            decreases self.members@.len() - i,
        {
            assert(self@[i as int] == self.members@[i as int]@);
            if self.members[i].name == *name {
                return true;
            }
            i = i + 1;
        }
        false
    }

    fn names(&self) -> (s: String)
        ensures
            s@ == names_listed(self@),
    {
        let mut s = String::new();
        let mut i: usize = 0;
        assert(self@.take(0) =~= Seq::<MemberView>::empty());
        while i < self.members.len()
            invariant
                i <= self@.len(),
                self@.len() == self.members@.len(),
                s@ == names_listed(self@.take(i as int)),
            decreases self.members@.len() - i,
        {
            let m = &self.members[i];
            proof {
                assert(self@[i as int] == m@);
                assert(self@.take(i + 1).drop_last() =~= self@.take(i as int));
                assert(self@.take(i + 1).last() == m@);
            }
            let ghost before = s@;
            if m.name.as_str().unicode_len() != 0 {
                if s.as_str().unicode_len() != 0 {
                    s.append(", ");
                }
                s.append(m.name.as_str());
                assert(s@ =~= names_listed(self@.take(i + 1)));
            }
            i = i + 1;
        }
        assert(self@.take(i as int) =~= self@);
        s
    }

    fn send_to_named(&self, except: Option<u64>, text: &String) -> (out: Vec<ChatOutput>)
        ensures
            chat_output_views(out@) == broadcast(self@, except, text@),
    {
        let mut out: Vec<ChatOutput> = Vec::new();
        let mut i: usize = 0;
        proof {
            assert(self@.take(0) =~= Seq::<MemberView>::empty());
            assert(chat_output_views(out@) =~= Seq::<ChatOutputView>::empty());
        }
        while i < self.members.len()
            invariant
                i <= self@.len(),
                self@.len() == self.members@.len(),
                chat_output_views(out@) == broadcast(self@.take(i as int), except, text@),
            decreases self.members@.len() - i,
        {
            let m = &self.members[i];
            proof {
                assert(self@[i as int] == m@);
                assert(self@.take(i + 1).drop_last() =~= self@.take(i as int));
                assert(self@.take(i + 1).last() == m@);
            }
            let ghost before = chat_output_views(out@);
            let skipped = match except {
                Some(c) => c == m.conn,
                None => false,
            };
            if m.name.as_str().unicode_len() != 0 && !skipped {
                out.push(ChatOutput::Send { conn: m.conn, text: text.clone() });
                assert(chat_output_views(out@) =~= before.push(
                    ChatOutputView::Send { conn: m.conn, text: text@ },
                ));
            }
            i = i + 1;
        }
        assert(self@.take(i as int) =~= self@);
        out
    }

    /// Takes one event, with the verdict on the name that a first line
    /// gives: changes the room and returns the instructions to carry out.
    pub fn apply(&mut self, event: ChatEvent, name_ok: bool) -> (out: Vec<ChatOutput>)
        requires
            distinct(old(self)@),
        ensures
            distinct(final(self)@),
            (final(self)@, chat_output_views(out@)) == chat_step(old(self)@, event@, name_ok),
    {
        let ghost pre = self@;
        match event {
            ChatEvent::Joined { conn } => {
                match self.find(conn) {
                    Some(i) => {
                        self.members.remove(i);
                        assert(self@ =~= pre.remove(i as int));
                    },
                    None => {},
                }
                let ghost rest = self@;
                self.members.push(Member { conn, name: String::new() });
                let mut out: Vec<ChatOutput> = Vec::new();
                out.push(
                    ChatOutput::Send { conn, text: "Please enter your username...\n".to_owned() },
                );
                proof {
                    assert(self@ =~= rest.push(MemberView { conn, name: Seq::<char>::empty() }));
                    assert(chat_output_views(out@) =~= on_joined(pre, conn).1);
                    assert forall|a: int, b: int| 0 <= a < b < self@.len() implies (
                    #[trigger] self@[a]).conn != (#[trigger] self@[b]).conn by {
                        if b == rest.len() {
                            if is_member(pre, conn) {
                                let i = member_index(pre, conn);
                                let a0 = if a < i {
                                    a
                                } else {
                                    a + 1
                                };
                                assert(rest[a] == pre[a0]);
                                if a0 < i {
                                    assert(pre[a0].conn != pre[i].conn);
                                } else {
                                    assert(pre[i].conn != pre[a0].conn);
                                }
                            } else {
                                assert(rest[a] == pre[a]);
                            }
                        } else {
                            if is_member(pre, conn) {
                                let i = member_index(pre, conn);
                                let a0 = if a < i {
                                    a
                                } else {
                                    a + 1
                                };
                                let b0 = if b < i {
                                    b
                                } else {
                                    b + 1
                                };
                                assert(rest[a] == pre[a0] && rest[b] == pre[b0]);
                                assert(pre[a0].conn != pre[b0].conn);
                            } else {
                                assert(rest[a] == pre[a] && rest[b] == pre[b]);
                            }
                        }
                    }
                }
                out
            },
            ChatEvent::Line { conn, text } => {
                match self.find(conn) {
                    None => {
                        let out: Vec<ChatOutput> = Vec::new();
                        assert(chat_output_views(out@) =~= Seq::<ChatOutputView>::empty());
                        out
                    },
                    Some(i) => {
                        assert(self@[i as int] == self.members@[i as int]@);
                        if self.members[i].name.as_str().unicode_len() == 0 {
                            let name = trim(text.as_str());
                            if !name_ok || self.has_name(&name) {
                                let mut out: Vec<ChatOutput> = Vec::new();
                                out.push(
                                    ChatOutput::Send {
                                        conn,
                                        text: "Invalid username...\n".to_owned(),
                                    },
                                );
                                out.push(ChatOutput::Shutdown { conn });
                                assert(chat_output_views(out@) =~= on_line(
                                    pre,
                                    conn,
                                    text@,
                                    name_ok,
                                ).1);
                                out
                            } else {
                                let mut told = self.names();
                                let first = if told.as_str().unicode_len() == 0 {
                                    "* The room is currently empty\n".to_owned()
                                } else {
                                    let mut line = "* The room contains: ".to_owned();
                                    line.append(told.as_str());
                                    line.append("\n");
                                    line
                                };
                                let mut news = "* ".to_owned();
                                news.append(name.as_str());
                                news.append(" has entered the room\n");
                                let mut out: Vec<ChatOutput> = Vec::new();
                                out.push(ChatOutput::Send { conn, text: first });
                                let ghost head = chat_output_views(out@);
                                let mut rest = self.send_to_named(Some(conn), &news);
                                let ghost tail = chat_output_views(rest@);
                                out.append(&mut rest);
                                self.members.set(i, Member { conn, name });
                                proof {
                                    assert(head =~= seq![
                                        ChatOutputView::Send { conn, text: listing(pre) },
                                    ]);
                                    assert(chat_output_views(out@) =~= head + tail);
                                    assert(self@ =~= pre.update(
                                        i as int,
                                        MemberView { conn, name: trimmed(text@) },
                                    ));
                                    assert forall|a: int, b: int|
                                        0 <= a < b < self@.len() implies (#[trigger] self@[a]).conn
                                        != (#[trigger] self@[b]).conn by {
                                        assert(self@[a].conn == pre[a].conn);
                                        assert(self@[b].conn == pre[b].conn);
                                    }
                                }
                                out
                            }
                        } else {
                            let mut line = "[".to_owned();
                            line.append(self.members[i].name.as_str());
                            line.append("] ");
                            line.append(text.as_str());
                            line.append("\n");
                            self.send_to_named(Some(conn), &line)
                        }
                    },
                }
            },
            ChatEvent::Left { conn } => {
                match self.find(conn) {
                    None => {
                        let out: Vec<ChatOutput> = Vec::new();
                        assert(chat_output_views(out@) =~= Seq::<ChatOutputView>::empty());
                        out
                    },
                    Some(i) => {
                        assert(self@[i as int] == self.members@[i as int]@);
                        let gone = self.members.remove(i);
                        proof {
                            assert(self@ =~= pre.remove(i as int));
                            assert forall|a: int, b: int|
                                0 <= a < b < self@.len() implies (#[trigger] self@[a]).conn != (
                            #[trigger] self@[b]).conn by {
                                let a0 = if a < i {
                                    a
                                } else {
                                    a + 1
                                };
                                let b0 = if b < i {
                                    b
                                } else {
                                    b + 1
                                };
                                assert(self@[a] == pre[a0] && self@[b] == pre[b0]);
                                assert(pre[a0].conn != pre[b0].conn);
                            }
                        }
                        if gone.name.as_str().unicode_len() == 0 {
                            let out: Vec<ChatOutput> = Vec::new();
                            assert(chat_output_views(out@) =~= Seq::<ChatOutputView>::empty());
                            out
                        } else {
                            let mut news = "* ".to_owned();
                            news.append(gone.name.as_str());
                            news.append(" has left the room\n");
                            self.send_to_named(None, &news)
                        }
                    },
                }
            },
        }
    }

    /// Takes one event: changes the room and returns the instructions to
    /// carry out.  The name that a first line gives is put to the pattern of
    /// user names; what comes of the event is what [`Room::apply`] makes of
    /// it under a verdict that accepts only what the pattern accepts.
    pub fn handle(&mut self, event: ChatEvent) -> (out: Vec<ChatOutput>)
        requires
            distinct(old(self)@),
        ensures
            distinct(final(self)@),
            exists|name_ok: bool|
                {
                    &&& (final(self)@, chat_output_views(out@)) == #[trigger] chat_step(
                        old(self)@,
                        event@,
                        name_ok,
                    )
                    &&& (name_ok && event@ is Line) ==> regex_accepts(
                        username_pattern(),
                        trimmed(event@->text),
                    )
                },
    {
        let name_ok = match &event {
            ChatEvent::Line { text, .. } => {
                let name = trim(text.as_str());
                is_valid_username(name.as_str())
            },
            _ => false,
        };
        let ghost pre = self@;
        let out = self.apply(event, name_ok);
        assert((self@, chat_output_views(out@)) == chat_step(pre, event@, name_ok));
        out
    }
}

} // verus!
