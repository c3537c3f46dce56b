//! Draining Steam's callback queue.
//!
//! Steam does not push callbacks; a client polls `Steam_BGetCallback` and must
//! call `Steam_FreeLastCallback` after each one. A payload is a small structure
//! laid out with a packing of four bytes.

use vstd::prelude::*;

use crate::vdf;
use crate::vdf::Cursor;

verus! {

/// Callback id of `UserStatsReceived_t`.
pub const USER_STATS_RECEIVED: i32 = 1101;

/// Callback id of `UserStatsStored_t`.
pub const USER_STATS_STORED: i32 = 1102;

/// Callback id of `AppDataChanged_t`.
pub const APP_DATA_CHANGED: i32 = 1001;

/// `EResult::k_EResultOK`.
pub const RESULT_OK: i32 = 1;

/// How many bytes the message that announces a callback takes up.
pub const CALLBACK_MESSAGE_SIZE: usize = 20;

/// How many bytes a [`UserStatsReceived`] takes up.
pub const USER_STATS_RECEIVED_SIZE: usize = 20;

/// How many bytes an [`AppDataChanged`] takes up.
pub const APP_DATA_CHANGED_SIZE: usize = 8;

/// How many callbacks are drained at once unless told otherwise. The bound
/// keeps a flood from stalling the UI; leftovers are picked up next time.
pub const POLL_LIMIT: usize = 256;

/// `UserStatsReceived_t`: `{u64 @0, i32 @8, u64 @12}`.
#[derive(Debug, Clone, Copy, PartialEq, Eq)]
pub struct UserStatsReceived {
    pub game_id: u64,
    pub result: i32,
    pub steam_id_user: u64,
}

/// `AppDataChanged_t`: `{u32 @0, u8 @4}`, filled up to a multiple of four.
#[derive(Debug, Clone, Copy, PartialEq, Eq)]
pub struct AppDataChanged {
    pub app_id: u32,
    pub result: u8,
}

/// A decoded callback.
#[derive(Debug, Clone, Copy, PartialEq, Eq)]
#[allow(inconsistent_fields)]
pub enum CallbackEvent {
    /// Stats for an app finished loading. `result` is an `EResult`;
    /// [`RESULT_OK`] means success.
    UserStatsReceived { game_id: u64, result: i32, steam_id: u64 },
    /// A `StoreStats` call completed.
    UserStatsStored { game_id: u64, result: i32 },
    /// Steam finished fetching metadata for an app, so `GetAppData` will now
    /// return a name and logo where it previously returned nothing.
    AppDataChanged { app_id: u32, result: bool },
    /// Something we do not model. Carried through so callers can log it.
    Other { id: i32 },
}

/// What the first bytes of a payload say of received stats.
pub open spec fn stats_received(payload: Seq<u8>) -> UserStatsReceived {
    UserStatsReceived {
        game_id: vdf::little_endian(payload.subrange(0, 8)) as u64,
        result: vdf::signed_32(vdf::little_endian(payload.subrange(8, 12))) as i32,
        steam_id_user: vdf::little_endian(payload.subrange(12, 20)) as u64,
    }
}

/// What the first bytes of a payload say of changed app data.
pub open spec fn data_changed(payload: Seq<u8>) -> AppDataChanged {
    AppDataChanged {
        app_id: vdf::little_endian(payload.subrange(0, 4)) as u32,
        result: payload[4],
    }
}

/// How many bytes of payload a callback needs; none where it is not one that is
/// modelled.
pub open spec fn needed(id: i32) -> Option<nat> {
    if id == USER_STATS_RECEIVED || id == USER_STATS_STORED {
        Some(USER_STATS_RECEIVED_SIZE as nat)
    } else if id == APP_DATA_CHANGED {
        Some(APP_DATA_CHANGED_SIZE as nat)
    } else {
        None
    }
}

/// The event behind a callback. A modelled one whose payload is absent or too
/// short says nothing.
pub open spec fn event_of(id: i32, payload: Option<Seq<u8>>) -> Option<CallbackEvent> {
    match needed(id) {
        None => Some(CallbackEvent::Other { id }),
        Some(size) => match payload {
            Some(bytes) if bytes.len() >= size => Some(
                if id == USER_STATS_RECEIVED {
                    let p = stats_received(bytes);
                    CallbackEvent::UserStatsReceived {
                        game_id: p.game_id,
                        result: p.result,
                        steam_id: p.steam_id_user,
                    }
                } else if id == USER_STATS_STORED {
                    let p = stats_received(bytes);
                    CallbackEvent::UserStatsStored { game_id: p.game_id, result: p.result }
                } else {
                    let p = data_changed(bytes);
                    CallbackEvent::AppDataChanged { app_id: p.app_id, result: p.result != 0 }
                },
            ),
            _ => None,
        },
    }
}

/// How many bytes to copy out of a callback's payload, given whether there is
/// one and the size that Steam gives for it. None where the callback is not
/// modelled or its payload too short. A size is read as unsigned, so that a
/// negative one stands for one that is large enough.
pub fn payload_size(id: i32, present: bool, size: i32) -> (r: Option<usize>)
    ensures
        match needed(id) {
            Some(n) if present && (size < 0 || size >= n) => r == Some(n as usize),
            _ => r is None,
        },
{
    let n: usize = if id == USER_STATS_RECEIVED || id == USER_STATS_STORED {
        USER_STATS_RECEIVED_SIZE
    } else if id == APP_DATA_CHANGED {
        APP_DATA_CHANGED_SIZE
    } else {
        return None;
    };
    if present && (size < 0 || size as usize >= n) {
        Some(n)
    } else {
        None
    }
}

impl UserStatsReceived {
    /// Reads the structure from the front of a payload.
    pub fn read(payload: &[u8]) -> (r: Option<UserStatsReceived>)
        ensures
            r == if payload@.len() >= USER_STATS_RECEIVED_SIZE {
                Some(stats_received(payload@))
            } else {
                None
            },
    {
        if payload.len() < USER_STATS_RECEIVED_SIZE {
            return None;
        }
        let mut cursor = Cursor { data: payload, pos: 0 };
        let game_id = cursor.u64();
        let result = cursor.i32();
        let steam_id_user = cursor.u64();
        match (game_id, result, steam_id_user) {
            (Ok(game_id), Ok(result), Ok(steam_id_user)) => Some(
                UserStatsReceived { game_id, result, steam_id_user },
            ),
            _ => None,
        }
    }
}

impl AppDataChanged {
    /// Reads the structure from the front of a payload.
    pub fn read(payload: &[u8]) -> (r: Option<AppDataChanged>)
        ensures
            r == if payload@.len() >= APP_DATA_CHANGED_SIZE {
                Some(data_changed(payload@))
            } else {
                None
            },
    {
        if payload.len() < APP_DATA_CHANGED_SIZE {
            return None;
        }
        let mut cursor = Cursor { data: payload, pos: 0 };
        let app_id = cursor.u32();
        let result = cursor.u8();
        match (app_id, result) {
            (Ok(app_id), Ok(result)) => Some(AppDataChanged { app_id, result }),
            _ => None,
        }
    }
}

/// Decodes one callback.
pub fn decode(id: i32, payload: Option<&[u8]>) -> (r: Option<CallbackEvent>)
    ensures
        r == event_of(
            id,
            match payload {
                Some(bytes) => Some(bytes@),
                None => None,
            },
        ),
{
    if id == USER_STATS_RECEIVED {
        match UserStatsReceived::read(payload?) {
            Some(p) => Some(
                CallbackEvent::UserStatsReceived {
                    game_id: p.game_id,
                    result: p.result,
                    steam_id: p.steam_id_user,
                },
            ),
            None => None,
        }
    } else if id == USER_STATS_STORED {
        // Same leading layout as `UserStatsReceived`: `{u64, i32, ...}`.
        match UserStatsReceived::read(payload?) {
            Some(p) => Some(
                CallbackEvent::UserStatsStored { game_id: p.game_id, result: p.result },
            ),
            None => None,
        }
    } else if id == APP_DATA_CHANGED {
        match AppDataChanged::read(payload?) {
            Some(p) => Some(
                CallbackEvent::AppDataChanged { app_id: p.app_id, result: p.result != 0 },
            ),
            None => None,
        }
    } else {
        Some(CallbackEvent::Other { id })
    }
}

/// What to do next while the callback queue is drained.
#[derive(Debug, Clone, Copy, PartialEq, Eq, Structural)]
pub enum PollStep {
    /// Ask Steam for the next callback.
    Ask,
    /// Free the callback that was handed over last.
    Free,
    /// Nothing more; the events are complete.
    Done,
}

/// What came of a [`PollStep`].
pub enum PollReply {
    /// A callback, with a copy of its payload where it has one.
    Callback { id: i32, payload: Option<Vec<u8>> },
    /// The queue is empty.
    Empty,
    /// The callback was freed.
    Freed,
}

/// What a [`PollReply`] says.
pub enum PollReplyModel {
    Callback { id: i32, payload: Option<Seq<u8>> },
    Empty,
    Freed,
}

impl View for PollReply {
    type V = PollReplyModel;

    open spec fn view(&self) -> PollReplyModel {
        match self {
            PollReply::Callback { id, payload } => PollReplyModel::Callback {
                id: *id,
                payload: match payload {
                    Some(bytes) => Some(bytes@),
                    None => None,
                },
            },
            PollReply::Empty => PollReplyModel::Empty,
            PollReply::Freed => PollReplyModel::Freed,
        }
    }
}

/// Drains a callback queue: takes callbacks one by one, frees each before the
/// next is asked for, and stops at an empty queue or at its limit.
pub struct CallbackPump {
    left: usize,
    held: bool,
    events: Vec<CallbackEvent>,
}

/// Where a [`CallbackPump`] has got to.
pub struct PumpModel {
    /// How many callbacks may still be taken.
    pub left: nat,
    /// Whether a callback was taken and not freed yet.
    pub held: bool,
    /// What the callbacks taken so far say, in order.
    pub events: Seq<CallbackEvent>,
}

impl View for CallbackPump {
    type V = PumpModel;

    closed spec fn view(&self) -> PumpModel {
        PumpModel { left: self.left as nat, held: self.held, events: self.events@ }
    }
}

/// A pump that takes up to `limit` callbacks.
pub open spec fn pump_start(limit: nat) -> PumpModel {
    PumpModel { left: limit, held: false, events: Seq::empty() }
}

/// What a pump does next.
pub open spec fn pump_step(pump: PumpModel) -> PollStep {
    if pump.held {
        PollStep::Free
    } else if pump.left > 0 {
        PollStep::Ask
    } else {
        PollStep::Done
    }
}

/// Whether a reply answers what a pump does next.
pub open spec fn answers_step(pump: PumpModel, reply: PollReplyModel) -> bool {
    match reply {
        PollReplyModel::Callback { .. } => pump_step(pump) == PollStep::Ask,
        PollReplyModel::Empty => pump_step(pump) == PollStep::Ask,
        PollReplyModel::Freed => pump_step(pump) == PollStep::Free,
    }
}

/// Events with one more, where there is one.
pub open spec fn with_event(events: Seq<CallbackEvent>, event: Option<CallbackEvent>) -> Seq<
    CallbackEvent,
> {
    match event {
        Some(event) => events.push(event),
        None => events,
    }
}

/// A pump after a reply. One that answers another question changes nothing.
pub open spec fn pump_after(pump: PumpModel, reply: PollReplyModel) -> PumpModel {
    if !answers_step(pump, reply) {
        pump
    } else {
        match reply {
            PollReplyModel::Callback { id, payload } => PumpModel {
                left: (pump.left - 1) as nat,
                held: true,
                events: with_event(pump.events, event_of(id, payload)),
            },
            PollReplyModel::Empty => PumpModel { left: 0, ..pump },
            PollReplyModel::Freed => PumpModel { held: false, ..pump },
        }
    }
}

/// A pump after one reply upon another.
pub open spec fn pump_run(pump: PumpModel, replies: Seq<PollReplyModel>) -> PumpModel
    decreases replies.len(),
{
    if replies.len() == 0 {
        pump
    } else {
        pump_after(pump_run(pump, replies.drop_last()), replies.last())
    }
}

/// The callbacks that a pump takes on its way, in order.
pub open spec fn callbacks_taken(pump: PumpModel, replies: Seq<PollReplyModel>) -> Seq<
    (i32, Option<Seq<u8>>),
>
    decreases replies.len(),
{
    if replies.len() == 0 {
        Seq::empty()
    } else {
        let before = callbacks_taken(pump, replies.drop_last());
        match replies.last() {
            PollReplyModel::Callback { id, payload } if answers_step(
                pump_run(pump, replies.drop_last()),
                replies.last(),
            ) => before.push((id, payload)),
            _ => before,
        }
    }
}

/// How many callbacks a pump frees on its way.
pub open spec fn callbacks_freed(pump: PumpModel, replies: Seq<PollReplyModel>) -> nat
    decreases replies.len(),
{
    if replies.len() == 0 {
        0
    } else {
        let before = callbacks_freed(pump, replies.drop_last());
        if replies.last() is Freed && answers_step(
            pump_run(pump, replies.drop_last()),
            replies.last(),
        ) {
            before + 1
        } else {
            before
        }
    }
}

/// What callbacks say, in order, those left out that say nothing.
pub open spec fn events_of(callbacks: Seq<(i32, Option<Seq<u8>>)>) -> Seq<CallbackEvent>
    decreases callbacks.len(),
{
    if callbacks.len() == 0 {
        Seq::empty()
    } else {
        with_event(
            events_of(callbacks.drop_last()),
            event_of(callbacks.last().0, callbacks.last().1),
        )
    }
}

impl CallbackPump {
    /// Starts to drain up to `limit` callbacks.
    pub fn poll_bounded(limit: usize) -> (r: CallbackPump)
        ensures
            r@ == pump_start(limit as nat),
    {
        CallbackPump { left: limit, held: false, events: Vec::new() }
    }

    /// Starts to drain with a sensible default bound.
    pub fn poll() -> (r: CallbackPump)
        ensures
            r@ == pump_start(POLL_LIMIT as nat),
    {
        CallbackPump::poll_bounded(POLL_LIMIT)
    }

    /// What to do next.
    pub fn step(&self) -> (r: PollStep)
        ensures
            r == pump_step(self@),
    {
        if self.held {
            PollStep::Free
        } else if self.left > 0 {
            PollStep::Ask
        } else {
            PollStep::Done
        }
    }

    /// Takes what came of it.
    pub fn advance(&mut self, reply: PollReply)
        ensures
            final(self)@ == pump_after(old(self)@, reply@),
    {
        match reply {
            PollReply::Callback { id, payload } => {
                if !self.held && self.left > 0 {
                    self.left = self.left - 1;
                    self.held = true;
                    let bytes: Option<&[u8]> = match &payload {
                        Some(bytes) => Some(bytes.as_slice()),
                        None => None,
                    };
                    if let Some(event) = decode(id, bytes) {
                        self.events.push(event);
                    }
                }
            },
            PollReply::Empty => {
                if !self.held {
                    self.left = 0;
                }
            },
            PollReply::Freed => {
                self.held = false;
            },
        }
    }

    /// What the callbacks say.
    pub fn events(self) -> (r: Vec<CallbackEvent>)
        ensures
            r@ == self@.events,
    {
        self.events
    }
}

/// No more callbacks are taken than the limit allows, each is freed before the
/// next is asked for, none stays behind when the pump is done, and the events
/// are those of the callbacks that were taken.
pub proof fn every_callback_is_freed(limit: nat, replies: Seq<PollReplyModel>)
    ensures
        ({
            let pump = pump_run(pump_start(limit), replies);
            let taken = callbacks_taken(pump_start(limit), replies);
            let freed = callbacks_freed(pump_start(limit), replies);
            &&& taken.len() + pump.left <= limit
            &&& taken.len() == freed + if pump.held {
                1nat
            } else {
                0nat
            }
            &&& pump_step(pump) == PollStep::Ask ==> taken.len() == freed
            &&& pump_step(pump) == PollStep::Done ==> taken.len() == freed
            &&& pump.events == events_of(taken)
        }),
    decreases replies.len(),
{
    if replies.len() > 0 {
        let before = replies.drop_last();
        every_callback_is_freed(limit, before);
        let pump = pump_run(pump_start(limit), before);
        let taken = callbacks_taken(pump_start(limit), before);
        if let PollReplyModel::Callback { id, payload } = replies.last() {
            if answers_step(pump, replies.last()) {
                assert(taken.push((id, payload)).drop_last() == taken);
            }
        }
    }
}

/// Draining ends: no more than two answers per callback are needed.
pub proof fn polling_ends(limit: nat, replies: Seq<PollReplyModel>)
    requires
        forall|i: int|
            0 <= i < replies.len() ==> answers_step(
                pump_run(pump_start(limit), replies.take(i)),
                #[trigger] replies[i],
            ),
    ensures
        replies.len() <= 2 * limit,
        replies.len() == 2 * limit ==> pump_step(pump_run(pump_start(limit), replies))
            == PollStep::Done,
{
    pump_effort(limit, replies);
}

/// Each answer takes something off what a pump still has to do.
proof fn pump_effort(limit: nat, replies: Seq<PollReplyModel>)
    requires
        forall|i: int|
            0 <= i < replies.len() ==> answers_step(
                pump_run(pump_start(limit), replies.take(i)),
                #[trigger] replies[i],
            ),
    ensures
        ({
            let pump = pump_run(pump_start(limit), replies);
            replies.len() + 2 * pump.left + if pump.held {
                1int
            } else {
                0int
            } <= 2 * limit
        }),
    decreases replies.len(),
{
    if replies.len() > 0 {
        let before = replies.drop_last();
        assert forall|i: int| 0 <= i < before.len() implies answers_step(
            pump_run(pump_start(limit), before.take(i)),
            #[trigger] before[i],
        ) by {
            assert(before.take(i) == replies.take(i));
            assert(before[i] == replies[i]);
        }
        pump_effort(limit, before);
        let last = replies.len() - 1;
        assert(replies.take(last) == before);
        assert(answers_step(pump_run(pump_start(limit), replies.take(last)), replies[last]));
    }
}

/// What Steam packs into a payload of received stats is what is decoded.
pub proof fn packed_stats_read_back(game_id: u64, result: i32, steam_id: u64)
    ensures
        event_of(
            USER_STATS_RECEIVED,
            Some(
                crate::wire::number_bytes(game_id as nat, 8) + crate::wire::number_bytes(
                    crate::wire::unsigned_32(result),
                    4,
                ) + crate::wire::number_bytes(steam_id as nat, 8),
            ),
        ) == Some(CallbackEvent::UserStatsReceived { game_id, result, steam_id }),
{
    let a = crate::wire::number_bytes(game_id as nat, 8);
    let b = crate::wire::number_bytes(crate::wire::unsigned_32(result), 4);
    let c = crate::wire::number_bytes(steam_id as nat, 8);
    crate::wire::powers_of_256();
    crate::wire::number_bytes_len(game_id as nat, 8);
    crate::wire::number_bytes_len(crate::wire::unsigned_32(result), 4);
    crate::wire::number_bytes_len(steam_id as nat, 8);
    crate::wire::number_bytes_denote(game_id as nat, 8);
    crate::wire::number_bytes_denote(crate::wire::unsigned_32(result), 4);
    crate::wire::number_bytes_denote(steam_id as nat, 8);
    let payload = a + b + c;
    assert(payload.subrange(0, 8) == a);
    assert(payload.subrange(8, 12) == b);
    assert(payload.subrange(12, 20) == c);
}

/// What Steam packs into the answer to a store, or into the news of an app's data, is what
/// is decoded.
pub proof fn packed_news_read_back(
    game_id: u64,
    result: i32,
    rest: Seq<u8>,
    app_id: u32,
    flag: u8,
    filling: Seq<u8>,
)
    requires
        rest.len() >= 8,
        filling.len() >= 3,
    ensures
        event_of(
            1102,
            Some(
                crate::wire::number_bytes(game_id as nat, 8) + crate::wire::number_bytes(
                    crate::wire::unsigned_32(result),
                    4,
                ) + rest,
            ),
        ) == Some(CallbackEvent::UserStatsStored { game_id, result }),
        event_of(
            1001,
            Some(crate::wire::number_bytes(app_id as nat, 4) + seq![flag] + filling),
        ) == Some(CallbackEvent::AppDataChanged { app_id, result: flag != 0 }),
{
    let a = crate::wire::number_bytes(game_id as nat, 8);
    let b = crate::wire::number_bytes(crate::wire::unsigned_32(result), 4);
    let c = crate::wire::number_bytes(app_id as nat, 4);
    crate::wire::powers_of_256();
    crate::wire::number_bytes_len(game_id as nat, 8);
    crate::wire::number_bytes_len(crate::wire::unsigned_32(result), 4);
    crate::wire::number_bytes_len(app_id as nat, 4);
    crate::wire::number_bytes_denote(game_id as nat, 8);
    crate::wire::number_bytes_denote(crate::wire::unsigned_32(result), 4);
    crate::wire::number_bytes_denote(app_id as nat, 4);
    let stored = a + b + rest;
    assert(stored.subrange(0, 8) =~= a);
    assert(stored.subrange(8, 12) =~= b);
    let changed = c + seq![flag] + filling;
    assert(changed.subrange(0, 4) =~= c);
    assert(changed[4] == flag);
}

/// A callback that is modelled says nothing where its payload is absent or too short; one
/// that is not is handed on by its number, whatever its payload.
pub proof fn short_payloads_say_nothing(id: i32, payload: Option<Seq<u8>>)
    ensures
        id == 1101 || id == 1102 ==> (event_of(id, payload) is Some <==> (payload matches Some(
            bytes,
        ) && bytes.len() >= 20)),
        id == 1001 ==> (event_of(id, payload) is Some <==> (payload matches Some(bytes)
            && bytes.len() >= 8)),
        id != 1101 && id != 1102 && id != 1001 ==> event_of(id, payload) == Some(
            CallbackEvent::Other { id },
        ),
{
}

/// Callbacks are told of one after another, in the order they came in.
pub proof fn events_keep_their_order(
    a: Seq<(i32, Option<Seq<u8>>)>,
    b: Seq<(i32, Option<Seq<u8>>)>,
)
    ensures
        events_of(a + b) == events_of(a) + events_of(b),
    decreases b.len(),
{
    if b.len() == 0 {
        assert(a + b =~= a);
        assert(events_of(a) + events_of(b) =~= events_of(a));
    } else {
        events_keep_their_order(a, b.drop_last());
        assert((a + b).drop_last() =~= a + b.drop_last());
        assert((a + b).last() == b.last());
        assert(events_of(a + b) =~= events_of(a) + events_of(b));
    }
}

/// A pump asks for callbacks until there is none or the limit is reached, and takes each
/// that it is given.
pub proof fn callbacks_are_taken_while_there_are_any(
    pump: PumpModel,
    id: i32,
    payload: Option<Seq<u8>>,
)
    requires
        !pump.held,
        pump.left > 0,
    ensures
        pump_step(pump) == PollStep::Ask,
        ({
            let callback = PollReplyModel::Callback { id, payload };
            let taken = pump_after(pump, callback);
            let freed = pump_after(taken, PollReplyModel::Freed);
            let over = pump_after(pump, PollReplyModel::Empty);
            &&& pump_step(taken) == PollStep::Free
            &&& event_of(id, payload) matches Some(event) ==> taken.events == pump.events
                + seq![event]
            &&& event_of(id, payload) is None ==> taken.events == pump.events
            &&& freed.events == taken.events
            &&& pump_step(freed) == if pump.left > 1 {
                PollStep::Ask
            } else {
                PollStep::Done
            }
            &&& pump_step(over) == PollStep::Done
            &&& over.events == pump.events
        }),
{
    if let Some(event) = event_of(id, payload) {
        assert(pump.events.push(event) =~= pump.events + seq![event]);
    }
}

} // verus!
