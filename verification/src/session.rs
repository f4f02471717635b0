//! The session state machine.
//!
//! A [`Server`] serves one connection. It holds the catalog snapshot that
//! the connection was given, which image is mounted, if any, and the flag
//! that makes the size query after an unmount answer zero.
//!
//! The session neither reads nor writes: it is told what arrived and
//! answers with an [`Action`] for the caller to carry out. The caller
//! reads a frame and calls [`Server::handler`]; on [`Action::ReadName`] it
//! reads the name that follows the frame and calls [`Server::mount_iso`].
//! An `Err` from either means that the connection is to be closed with
//! nothing written.
//!
//! [`step_spec`] and [`mount_spec`] are the machine as mathematical
//! functions from state and input to state and action; the methods of
//! [`Server`] compute exactly these.
use vstd::prelude::*;
use vstd::utf8::valid_utf8;
use crate::catalog::IsoEntry;
use crate::names::{
    ends_with,
    ends_with_spec,
    is_disable_name,
    is_utf8,
    normalize_name,
    normalize_spec,
    DISABLE_NAME,
};
use crate::wire::{
    be32,
    be32_bytes,
    decode_frame,
    decode_spec,
    encode_be32,
    name_reply,
    name_reply_spec,
    ping_reply,
    size_reply,
    size_reply_spec,
    Cmd,
    lemma_be32_roundtrip,
    FrameError,
    Message,
    PING_REPLY,
    SECTOR_SIZE,
};

verus! {

/// The image index that clients probe and for which a size query always
/// answers zero sectors.
pub const PROBE_INDEX: u16 = 132;

/// The status that a mount reply carries when the image was mounted.
pub const STATUS_MOUNTED: u32 = 1;

/// The status that a mount reply carries when no image has the name, and
/// also when the current image was disabled as asked.
pub const STATUS_NONE: u32 = 0;

/// What the caller is to do after a step of the session.
#[derive(Debug, PartialEq, Eq)]
pub enum Action {
    /// Write `bytes` to the client.
    Reply { bytes: Vec<u8> },
    /// Read exactly `length` bytes at `offset` of the mounted image, which
    /// is the one at `index` of the catalog, and write them to the client.
    SendData { index: usize, offset: u64, length: u32 },
    /// Read the `length` bytes of the mount target that follow the frame
    /// and hand them to [`Server::mount_iso`].
    ReadName { length: u32 },
    /// Open the image at `index` of the catalog in place of the one that is
    /// open, if any, then write `reply` to the client.
    Mount { index: usize, reply: Vec<u8> },
    /// Close the image that is open, if any, then write `reply` to the
    /// client.
    Unmount { reply: Vec<u8> },
    /// Write nothing.
    Nothing,
}

/// [`Action`] with its bytes as sequences.
pub enum ActionView {
    Reply { bytes: Seq<u8> },
    SendData { index: usize, offset: u64, length: u32 },
    ReadName { length: u32 },
    Mount { index: usize, reply: Seq<u8> },
    Unmount { reply: Seq<u8> },
    Nothing,
}

impl View for Action {
    type V = ActionView;

    open spec fn view(&self) -> ActionView {
        match *self {
            Action::Reply { bytes } => ActionView::Reply { bytes: bytes@ },
            Action::SendData { index, offset, length } => ActionView::SendData {
                index,
                offset,
                length,
            },
            Action::ReadName { length } => ActionView::ReadName { length },
            Action::Mount { index, reply } => ActionView::Mount { index, reply: reply@ },
            Action::Unmount { reply } => ActionView::Unmount { reply: reply@ },
            Action::Nothing => ActionView::Nothing,
        }
    }
}

/// Why a connection is to be closed.
#[derive(Clone, Copy, Debug, PartialEq, Eq, Structural)]
pub enum SessionError {
    /// The frame could not be decoded.
    Frame(FrameError),
    /// The mount target is not valid UTF-8.
    InvalidName,
}

/// The state of a session.
pub struct ServerView {
    /// The catalog snapshot of the connection.
    pub files: Seq<IsoEntry>,
    /// The catalog index of the mounted image, if one is mounted.
    pub active_file: Option<usize>,
    /// Whether the next size query is to answer zero.
    pub next_iso_size_query_zero: bool,
}

impl ServerView {
    /// A mounted image is an image of the catalog.
    pub open spec fn well_formed(self) -> bool {
        self.active_file matches Some(index) ==> index < self.files.len()
    }

    /// The state in which a session begins.
    pub open spec fn initial(files: Seq<IsoEntry>) -> ServerView {
        ServerView { files, active_file: None, next_iso_size_query_zero: false }
    }

    /// This state with nothing mounted and the next size query set to
    /// answer zero.
    pub open spec fn disabled(self) -> ServerView {
        ServerView { files: self.files, active_file: None, next_iso_size_query_zero: true }
    }
}

/// The sector count of the image at `index`; 0 where the catalog has no
/// such image.
pub open spec fn sector_count_at(files: Seq<IsoEntry>, index: u16) -> u64 {
    if index < files.len() {
        files[index as int].sector_count
    } else {
        0
    }
}

/// The type-1-file flag of the image at `index`; 0 where the catalog has no
/// such image.
pub open spec fn type1_flag_at(files: Seq<IsoEntry>, index: u16) -> u32 {
    if index < files.len() {
        files[index as int].has_type1_file
    } else {
        0
    }
}

/// The bytes of the name of the image at `index`; none where the catalog
/// has no such image.
pub open spec fn name_at(files: Seq<IsoEntry>, index: u16) -> Seq<u8> {
    if index < files.len() {
        files[index as int].name_bytes()
    } else {
        Seq::empty()
    }
}

/// The first image from `from` on whose name ends with `name`.
pub open spec fn find_image_from(files: Seq<IsoEntry>, name: Seq<u8>, from: int) -> Option<int>
    decreases files.len() - from,
{
    if from < 0 || from >= files.len() {
        None
    } else if ends_with_spec(files[from].name_bytes(), name) {
        Some(from)
    } else {
        find_image_from(files, name, from + 1)
    }
}

/// The first image of the catalog whose name ends with `name`.
pub open spec fn find_image(files: Seq<IsoEntry>, name: Seq<u8>) -> Option<int> {
    find_image_from(files, name, 0)
}

/// The answer to a size query and the state after it.
pub open spec fn size_query_spec(state: ServerView, index: u16) -> (ServerView, ActionView) {
    if state.next_iso_size_query_zero {
        (
            ServerView { next_iso_size_query_zero: false, ..state },
            ActionView::Reply { bytes: size_reply_spec(0) },
        )
    } else if index == PROBE_INDEX {
        (state, ActionView::Reply { bytes: size_reply_spec(0) })
    } else {
        (state, ActionView::Reply { bytes: size_reply_spec(sector_count_at(state.files, index)) })
    }
}

/// One step of the session: the state after `msg` and what is to be done.
pub open spec fn step_spec(state: ServerView, msg: Message) -> (ServerView, ActionView) {
    match msg.cmd_type {
        Cmd::Ping => (state, ActionView::Reply { bytes: PING_REPLY@ }),
        Cmd::GetIsoSize => size_query_spec(state, msg.iso_index),
        Cmd::HasType1File => (
            state,
            ActionView::Reply { bytes: be32_bytes(type1_flag_at(state.files, msg.iso_index)) },
        ),
        Cmd::ReadData => match state.active_file {
            Some(index) => (
                state,
                ActionView::SendData { index, offset: msg.offset, length: msg.length },
            ),
            None => (state, ActionView::Nothing),
        },
        Cmd::GetIsoName => (
            state,
            ActionView::Reply {
                bytes: name_reply_spec(name_at(state.files, msg.iso_index), msg.length),
            },
        ),
        Cmd::MountIso => (state, ActionView::ReadName { length: msg.length }),
    }
}

/// The step that a mount target asks for, once it is known to be valid
/// UTF-8: the reserved name unmounts; any other name mounts the first
/// image whose name ends with it, or changes nothing if there is none.
pub open spec fn mount_name_spec(state: ServerView, raw: Seq<u8>) -> (ServerView, ActionView) {
    let name = normalize_spec(raw);
    if name == DISABLE_NAME@ {
        (state.disabled(), ActionView::Unmount { reply: be32_bytes(STATUS_NONE) })
    } else {
        match find_image(state.files, name) {
            Some(index) => (
                ServerView { active_file: Some(index as usize), ..state },
                ActionView::Mount { index: index as usize, reply: be32_bytes(STATUS_MOUNTED) },
            ),
            None => (state, ActionView::Reply { bytes: be32_bytes(STATUS_NONE) }),
        }
    }
}

/// The step that a mount target asks for; an error if it is not valid
/// UTF-8.
pub open spec fn mount_spec(state: ServerView, raw: Seq<u8>) -> Result<
    (ServerView, ActionView),
    SessionError,
> {
    if valid_utf8(raw) {
        Ok(mount_name_spec(state, raw))
    } else {
        Err(SessionError::InvalidName)
    }
}

/// The step that a raw frame asks for; an error if it does not decode.
pub open spec fn frame_spec(state: ServerView, frame: Seq<u8>) -> Result<
    (ServerView, ActionView),
    SessionError,
> {
    match decode_spec(frame) {
        Ok(msg) => Ok(step_spec(state, msg)),
        Err(error) => Err(SessionError::Frame(error)),
    }
}

/// The session of one connection.
#[derive(Debug)]
pub struct Server {
    files: Vec<IsoEntry>,
    active_file: Option<usize>,
    next_iso_size_query_zero: bool,
}

impl View for Server {
    type V = ServerView;

    closed spec fn view(&self) -> ServerView {
        ServerView {
            files: self.files@,
            active_file: self.active_file,
            next_iso_size_query_zero: self.next_iso_size_query_zero,
        }
    }
}

impl Server {
    #[verifier::type_invariant]
    spec fn valid(&self) -> bool {
        self@.well_formed()
    }

    /// A session over the catalog `files`, with nothing mounted.
    pub fn new(files: Vec<IsoEntry>) -> (server: Server)
        ensures
            server@ == ServerView::initial(files@),
            server@.well_formed(),
    {
        Server { files, active_file: None, next_iso_size_query_zero: false }
    }

    /// The catalog of this session.
    pub fn files(&self) -> (files: &Vec<IsoEntry>)
        ensures
            files@ == self@.files,
    {
        &self.files
    }

    /// The catalog index of the mounted image, if one is mounted.
    pub fn active_file(&self) -> (index: Option<usize>)
        ensures
            index == self@.active_file,
            index matches Some(i) ==> i < self@.files.len(),
    {
        proof {
            use_type_invariant(self);
        }
        self.active_file
    }

    /// Whether the next size query is to answer zero.
    pub fn next_iso_size_query_zero(&self) -> (armed: bool)
        ensures
            armed == self@.next_iso_size_query_zero,
    {
        self.next_iso_size_query_zero
    }

    /// Unmounts: nothing is mounted afterwards, and the next size query
    /// answers zero. The catalog stays.
    pub fn disable_current_iso(&mut self)
        ensures
            final(self)@ == old(self)@.disabled(),
            final(self)@.well_formed(),
    {
        self.active_file = None;
        self.next_iso_size_query_zero = true;
    }

    fn name_bytes_at(&self, index: u16) -> (name: &[u8])
        ensures
            name@ == name_at(self@.files, index),
    {
        let i = index as usize;
        if i < self.files.len() {
            self.files[i].filename.as_str().as_bytes()
        } else {
            let empty: &[u8] = &[];
            assert(empty@ =~= Seq::<u8>::empty());
            empty
        }
    }

    fn find(&self, name: &[u8]) -> (found: Option<usize>)
        ensures
            found matches Some(i) ==> find_image(self@.files, name@) == Some(i as int),
            found is None ==> find_image(self@.files, name@) is None,
    {
        let n = self.files.len();
        let mut i: usize = 0;
        while i < n
            invariant
                i <= n,
                n == self.files@.len(),
                find_image(self@.files, name@) == find_image_from(self@.files, name@, i as int),
            decreases n - i,
        {
            if ends_with(self.files[i].filename.as_str().as_bytes(), name) {
                return Some(i);
            }
            i += 1;
        }
        None
    }

    /// Takes one decoded message.
    ///
    /// The state afterwards and the action are those of [`step_spec`]. The
    /// catalog never changes, and only a size query can change anything: it
    /// clears the flag that an unmount has set.
    pub fn dispatch(&mut self, msg: &Message) -> (action: Action)
        ensures
            (final(self)@, action@) == step_spec(old(self)@, *msg),
            final(self)@.files == old(self)@.files,
            final(self)@.well_formed(),
    {
        proof {
            use_type_invariant(&*self);
        }
        match msg.cmd_type {
            Cmd::Ping => Action::Reply { bytes: ping_reply() },
            Cmd::GetIsoSize => {
                if self.next_iso_size_query_zero {
                    self.next_iso_size_query_zero = false;
                    Action::Reply { bytes: size_reply(0) }
                } else if msg.iso_index == PROBE_INDEX {
                    Action::Reply { bytes: size_reply(0) }
                } else {
                    let i = msg.iso_index as usize;
                    let count = if i < self.files.len() {
                        self.files[i].sector_count
                    } else {
                        0
                    };
                    Action::Reply { bytes: size_reply(count) }
                }
            },
            Cmd::HasType1File => {
                let i = msg.iso_index as usize;
                let flag = if i < self.files.len() {
                    self.files[i].has_type1_file
                } else {
                    0
                };
                Action::Reply { bytes: encode_be32(flag) }
            },
            Cmd::ReadData => match self.active_file {
                Some(index) => Action::SendData { index, offset: msg.offset, length: msg.length },
                None => Action::Nothing,
            },
            Cmd::GetIsoName => {
                let name = self.name_bytes_at(msg.iso_index);
                Action::Reply { bytes: name_reply(name, msg.length) }
            },
            Cmd::MountIso => Action::ReadName { length: msg.length },
        }
    }

    /// Takes one raw frame.
    ///
    /// A frame that does not decode gives the decoding error and leaves the
    /// state as it was; any other frame is dispatched.
    pub fn handler(&mut self, frame: &[u8; 20]) -> (outcome: Result<Action, SessionError>)
        ensures
            match frame_spec(old(self)@, frame@) {
                Ok(step) => outcome matches Ok(action) && (final(self)@, action@) == step,
                Err(error) => outcome == Err::<Action, SessionError>(error) && final(self)@ == old(
                    self,
                )@,
            },
            outcome is Err <==> decode_spec(frame@) is Err,
            final(self)@.files == old(self)@.files,
            final(self)@.well_formed(),
    {
        proof {
            use_type_invariant(&*self);
        }
        match decode_frame(frame) {
            Ok(msg) => Ok(self.dispatch(&msg)),
            Err(error) => Err(SessionError::Frame(error)),
        }
    }

    /// Takes the mount target that followed a mount request.
    ///
    /// A target that is not valid UTF-8 gives [`SessionError::InvalidName`]
    /// and leaves the state as it was. The reserved name unmounts and
    /// answers status 0. Any other name mounts the first image of the
    /// catalog whose name ends with it and answers status 1; if there is
    /// none, it answers status 0 and the state stays as it was.
    pub fn mount_iso(&mut self, raw_name: &[u8]) -> (outcome: Result<Action, SessionError>)
        ensures
            match mount_spec(old(self)@, raw_name@) {
                Ok(step) => outcome matches Ok(action) && (final(self)@, action@) == step,
                Err(error) => outcome == Err::<Action, SessionError>(error) && final(self)@ == old(
                    self,
                )@,
            },
            outcome is Err <==> !valid_utf8(raw_name@),
            final(self)@.files == old(self)@.files,
            final(self)@.well_formed(),
    {
        proof {
            use_type_invariant(&*self);
        }
        if !is_utf8(raw_name) {
            return Err(SessionError::InvalidName);
        }
        let name = normalize_name(raw_name);
        if is_disable_name(name.as_slice()) {
            self.disable_current_iso();
            return Ok(Action::Unmount { reply: encode_be32(STATUS_NONE) });
        }
        match self.find(name.as_slice()) {
            Some(index) => {
                proof {
                    lemma_find_image_from(self@.files, name@, 0);
                }
                self.active_file = Some(index);
                Ok(Action::Mount { index, reply: encode_be32(STATUS_MOUNTED) })
            },
            None => Ok(Action::Reply { bytes: encode_be32(STATUS_NONE) }),
        }
    }
}

/// What [`find_image_from`] finds is the first image from `from` on whose
/// name ends with `name`; it finds none exactly when there is none.
pub proof fn lemma_find_image_from(files: Seq<IsoEntry>, name: Seq<u8>, from: int)
    requires
        0 <= from,
    ensures
        match find_image_from(files, name, from) {
            Some(index) => {
                &&& from <= index < files.len()
                &&& ends_with_spec(files[index].name_bytes(), name)
                &&& forall|j: int|
                    from <= j < index ==> !ends_with_spec((#[trigger] files[j]).name_bytes(), name)
            },
            None => forall|j: int|
                from <= j < files.len() ==> !ends_with_spec(
                    (#[trigger] files[j]).name_bytes(),
                    name,
                ),
        },
    decreases files.len() - from,
{
    if from < files.len() && !ends_with_spec(files[from].name_bytes(), name) {
        lemma_find_image_from(files, name, from + 1);
    }
}

/// The two fields of a size reply, read back: the sector count, cut to 32
/// bits, and the sector size.
pub proof fn lemma_size_reply_fields(sector_count: u64)
    ensures
        size_reply_spec(sector_count).len() == 8,
        be32(size_reply_spec(sector_count), 0) == sector_count % 0x1_0000_0000,
        be32(size_reply_spec(sector_count), 4) == 2048,
{
    let count = (sector_count % 0x1_0000_0000) as u32;
    let reply = size_reply_spec(sector_count);
    lemma_be32_roundtrip(count);
    lemma_be32_roundtrip(SECTOR_SIZE as u32);
    assert(reply.subrange(0, 4) =~= be32_bytes(count));
    assert(reply.subrange(4, 8) =~= be32_bytes(SECTOR_SIZE as u32));
    assert(be32(reply, 0) == be32(reply.subrange(0, 4), 0));
    assert(be32(reply, 4) == be32(reply.subrange(4, 8), 0));
}

/// No step changes the catalog, and every step keeps a mounted image
/// within it.
pub proof fn lemma_steps_keep_well_formed(state: ServerView, msg: Message, raw: Seq<u8>)
    requires
        state.well_formed(),
        state.files.len() <= usize::MAX,
    ensures
        step_spec(state, msg).0.well_formed(),
        step_spec(state, msg).0.files == state.files,
        mount_name_spec(state, raw).0.well_formed(),
        mount_name_spec(state, raw).0.files == state.files,
{
    lemma_find_image_from(state.files, normalize_spec(raw), 0);
}

/// Only a size query changes the state, and all it does is clear the flag
/// that an unmount has set: what is mounted stays mounted through every
/// message.
pub proof fn lemma_step_keeps_mount(state: ServerView, msg: Message)
    ensures
        step_spec(state, msg).0.active_file == state.active_file,
        msg.cmd_type != Cmd::GetIsoSize ==> step_spec(state, msg).0 == state,
        msg.cmd_type == Cmd::GetIsoSize ==> step_spec(state, msg).0 == (ServerView {
            next_iso_size_query_zero: false,
            ..state
        }),
{
}

/// A size query for the probe index answers zero sectors, whatever is
/// mounted and whatever the catalog holds.
pub proof fn lemma_probe_index_answers_zero(state: ServerView, msg: Message)
    requires
        msg.cmd_type == Cmd::GetIsoSize,
        msg.iso_index == PROBE_INDEX,
    ensures
        step_spec(state, msg).1 == (ActionView::Reply { bytes: size_reply_spec(0) }),
        be32(size_reply_spec(0), 0) == 0,
{
    lemma_size_reply_fields(0);
}

/// After the reserved name has unmounted, the next size query answers zero
/// sectors for every index, and the one after it answers what the catalog
/// holds.
pub proof fn lemma_size_after_unmount(
    state: ServerView,
    raw: Seq<u8>,
    first: Message,
    second: Message,
)
    requires
        valid_utf8(raw),
        normalize_spec(raw) == DISABLE_NAME@,
        first.cmd_type == Cmd::GetIsoSize,
        second.cmd_type == Cmd::GetIsoSize,
        second.iso_index != PROBE_INDEX,
    ensures
        mount_spec(state, raw) == Ok::<(ServerView, ActionView), SessionError>(
            (state.disabled(), ActionView::Unmount { reply: be32_bytes(STATUS_NONE) }),
        ),
        step_spec(state.disabled(), first).1 == (ActionView::Reply { bytes: size_reply_spec(0) }),
        step_spec(step_spec(state.disabled(), first).0, second).1 == (ActionView::Reply {
            bytes: size_reply_spec(sector_count_at(state.files, second.iso_index)),
        }),
        step_spec(step_spec(state.disabled(), first).0, second).0 == (ServerView {
            files: state.files,
            active_file: None,
            next_iso_size_query_zero: false,
        }),
{
}

/// A name that no image of the catalog ends with mounts nothing: the reply
/// carries status 0 and the state stays as it was.
pub proof fn lemma_unknown_name_changes_nothing(state: ServerView, raw: Seq<u8>)
    requires
        valid_utf8(raw),
        normalize_spec(raw) != DISABLE_NAME@,
        forall|i: int|
            0 <= i < state.files.len() ==> !ends_with_spec(
                (#[trigger] state.files[i]).name_bytes(),
                normalize_spec(raw),
            ),
    ensures
        mount_spec(state, raw) == Ok::<(ServerView, ActionView), SessionError>(
            (state, ActionView::Reply { bytes: be32_bytes(STATUS_NONE) }),
        ),
{
    lemma_find_image_from(state.files, normalize_spec(raw), 0);
}

/// Of the images whose names end with the target, the first in catalog
/// order is mounted, and the reply carries status 1.
pub proof fn lemma_mount_takes_first_match(state: ServerView, raw: Seq<u8>, index: usize)
    requires
        valid_utf8(raw),
        normalize_spec(raw) != DISABLE_NAME@,
        index < state.files.len(),
        ends_with_spec(state.files[index as int].name_bytes(), normalize_spec(raw)),
        forall|j: int|
            0 <= j < index ==> !ends_with_spec(
                (#[trigger] state.files[j]).name_bytes(),
                normalize_spec(raw),
            ),
    ensures
        mount_spec(state, raw) == Ok::<(ServerView, ActionView), SessionError>(
            (
                ServerView { active_file: Some(index), ..state },
                ActionView::Mount { index, reply: be32_bytes(STATUS_MOUNTED) },
            ),
        ),
{
    lemma_find_image_from(state.files, normalize_spec(raw), 0);
}

} // verus!
