//! State held for the lifetime of one accepted connection.

use vstd::prelude::*;

use crate::random::{draw_uuid, is_random_uuid, may_draw};
use crate::server::auth::ClientIdentity;
use crate::server::handles::{handle_id, HandleTable, OpenHandle, EPOCH_SIZE};
use crate::time::Clock;

verus! {

/// One client's session.
pub struct ClientSession<F> {
    pub id: u128,
    pub identity: ClientIdentity,
    pub handles: HandleTable<F>,
    pub rx_bytes: u64,
    pub tx_bytes: u64,
    pub connected: Clock,
    /// Features negotiated during the handshake.
    pub features: Vec<String>,
    /// Force a file to disk when its handle is released.
    pub sync_on_close: bool,
    /// Force the parent directory to disk after its entries changed.
    pub sync_metadata: bool,
}

impl<F> ClientSession<F> {
    /// A new session with a random identifier, at most `max_handles` open handles
    /// and nothing transferred yet. Its handle numbers start anew in a random epoch, so
    /// that a number of an earlier session misses.
    pub fn new(
        identity: ClientIdentity,
        features: Vec<String>,
        max_handles: u32,
        sync_on_close: bool,
        sync_metadata: bool,
    ) -> (res: Self)
        ensures
            may_draw(res.id),
            is_random_uuid(res.id),
            res.connected.is_started(),
            res.identity == identity,
            res.features == features,
            res.handles.wf(),
            res.handles@ == Map::<u64, OpenHandle<F>>::empty(),
            res.handles.limit() == max_handles,
            res.handles.issued() == 0,
            exists|draw: u128|
                #[trigger] may_draw(draw) && res.handles.epoch() == draw % (EPOCH_SIZE as u128),
            res.rx_bytes == 0,
            res.tx_bytes == 0,
            res.sync_on_close == sync_on_close,
            res.sync_metadata == sync_metadata,
    {
        ClientSession {
            id: draw_uuid(),
            identity,
            handles: HandleTable::with_limit(max_handles),
            rx_bytes: 0,
            tx_bytes: 0,
            connected: Clock::new(),
            features,
            sync_on_close,
            sync_metadata,
        }
    }

    /// Counts received bytes; the counter wraps.
    pub fn record_rx(&mut self, n: u64)
        ensures
            *final(self) == (ClientSession {
                rx_bytes: old(self).rx_bytes.wrapping_add(n),
                ..*old(self)
            }),
    {
        self.rx_bytes = self.rx_bytes.wrapping_add(n);
    }

    /// Counts sent bytes; the counter wraps.
    pub fn record_tx(&mut self, n: u64)
        ensures
            *final(self) == (ClientSession {
                tx_bytes: old(self).tx_bytes.wrapping_add(n),
                ..*old(self)
            }),
    {
        self.tx_bytes = self.tx_bytes.wrapping_add(n);
    }
}

/// After a reconnect no number that an earlier session of another epoch handed out
/// resolves, so nothing is written to a file that took its place. That holds until one of
/// the two has handed out as many numbers as an epoch has.
pub proof fn law_earlier_handles_are_stale<F>(
    earlier: ClientSession<F>,
    session: ClientSession<F>,
    n: int,
)
    requires
        session.handles.wf(),
        earlier.handles.wf(),
        earlier.handles.epoch() != session.handles.epoch(),
        earlier.handles.issued() < EPOCH_SIZE,
        session.handles.issued() < EPOCH_SIZE,
        0 <= n < earlier.handles.issued(),
    ensures
        !session.handles@.contains_key(handle_id(earlier.handles.epoch(), n)),
{
    session.handles.law_stale_handle_misses(earlier.handles.epoch(), n);
}

} // verus!
