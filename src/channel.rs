//! The bounded, non-blocking handoff of chunks from the producer thread to
//! the audio thread. A full or empty channel is an ordinary outcome.
use vstd::prelude::*;
use crate::chunk::Chunk;

verus! {

#[verifier::external_type_specification]
#[verifier::external_body]
#[verifier::reject_recursive_types(T)]
pub struct ExSender<T>(crossbeam_channel::Sender<T>);

#[verifier::external_type_specification]
#[verifier::external_body]
#[verifier::reject_recursive_types(T)]
pub struct ExReceiver<T>(crossbeam_channel::Receiver<T>);

/// Largest capacity a chunk channel may be created with.
pub const MAX_CHANNEL_CAPACITY: usize = 65536;

/// What became of a chunk handed to [`ChunkSender::send`].
#[derive(Debug, PartialEq, Eq, Structural)]
pub enum SendOutcome {
    /// The chunk is queued for the audio thread.
    Sent,
    /// The channel was full; the chunk was dropped.
    Full,
    /// The audio side is gone; the chunk was dropped.
    Disconnected,
}

/// A chunk that the channel turned away, handed back.
pub enum Rejected<const N: usize> {
    Full(Chunk<N>),
    Disconnected(Chunk<N>),
}

/// Producer end of a chunk channel.
#[verifier::reject_recursive_types(N)]
pub struct ChunkSender<const N: usize> {
    tx: crossbeam_channel::Sender<Chunk<N>>,
}

/// Consumer end of a chunk channel.
#[verifier::reject_recursive_types(N)]
pub struct ChunkReceiver<const N: usize> {
    rx: crossbeam_channel::Receiver<Chunk<N>>,
}

/// Relies on crossbeam_channel::bounded: a channel that holds up to `cap`
/// messages. It panics only on a capacity too large for its index arithmetic,
/// which the bound rules out.
#[verifier::external_body]
fn bounded_channel<const N: usize>(cap: usize) -> (crossbeam_channel::Sender<Chunk<N>>, crossbeam_channel::Receiver<Chunk<N>>)
    requires
        cap <= MAX_CHANNEL_CAPACITY,
{
    crossbeam_channel::bounded(cap)
}

/// Relies on crossbeam_channel::Sender::try_send: it never blocks, and a
/// message it does not queue comes back inside the error.
#[verifier::external_body]
fn try_send_chunk<const N: usize>(tx: &crossbeam_channel::Sender<Chunk<N>>, chunk: Chunk<N>) -> (r: Result<(), Rejected<N>>)
    ensures
        r matches Err(Rejected::Full(c)) ==> c == chunk,
        r matches Err(Rejected::Disconnected(c)) ==> c == chunk,
{
    match tx.try_send(chunk) {
        Ok(()) => Ok(()),
        Err(crossbeam_channel::TrySendError::Full(c)) => Err(Rejected::Full(c)),
        Err(crossbeam_channel::TrySendError::Disconnected(c)) => Err(Rejected::Disconnected(c)),
    }
}

/// Relies on crossbeam_channel::Receiver::try_recv: it never blocks; an
/// empty or disconnected channel gives no message.
#[verifier::external_body]
fn try_recv_chunk<const N: usize>(rx: &crossbeam_channel::Receiver<Chunk<N>>) -> Option<Chunk<N>> {
    rx.try_recv().ok()
}

/// A channel that carries up to `capacity` chunks at once.
pub fn chunk_channel<const N: usize>(capacity: usize) -> (r: (ChunkSender<N>, ChunkReceiver<N>))
    requires
        0 < capacity <= MAX_CHANNEL_CAPACITY,
{
    let (tx, rx) = bounded_channel(capacity);
    (ChunkSender { tx }, ChunkReceiver { rx })
}

impl<const N: usize> ChunkSender<N> {
    /// Offers `chunk` to the audio thread without blocking. A chunk that finds
    /// the channel full or closed is dropped; what is queued already stays.
    pub fn send(&self, chunk: Chunk<N>) -> (r: SendOutcome) {
        match try_send_chunk(&self.tx, chunk) {
            Ok(()) => SendOutcome::Sent,
            Err(Rejected::Full(_)) => SendOutcome::Full,
            Err(Rejected::Disconnected(_)) => SendOutcome::Disconnected,
        }
    }

    /// Halves a full-scale row of `N` samples into a chunk and offers it as
    /// [`ChunkSender::send`] does.
    pub fn emit_row(&self, row: &[i16]) -> (r: SendOutcome)
        requires
            row@.len() == N,
    {
        self.send(Chunk::from_row(row).unwrap())
    }
}

impl<const N: usize> ChunkReceiver<N> {
    /// The next queued chunk, if there is one. Never blocks.
    pub fn try_receive(&self) -> (r: Option<Chunk<N>>) {
        try_recv_chunk(&self.rx)
    }
}

} // verus!
