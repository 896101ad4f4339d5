use vstd::prelude::*;

use crate::messages::ProcessMessage;

verus! {

#[verifier::external_type_specification]
#[verifier::external_body]
#[verifier::reject_recursive_types(K)]
#[verifier::reject_recursive_types(V)]
#[verifier::reject_recursive_types(S)]
pub struct ExDashMap<K, V, S>(dashmap::DashMap<K, V, S>);

#[verifier::external_type_specification]
#[verifier::external_body]
#[verifier::reject_recursive_types(T)]
pub struct ExSender<T>(tokio::sync::oneshot::Sender<T>);

/// Relies on dashmap::DashMap::remove: takes the entry under this request
/// id out of the shared registry, if one is present. The registry is
/// shared across threads, so nothing relates the result to earlier calls.
#[verifier::external_body]
fn registry_remove(
    map: &std::sync::Arc<dashmap::DashMap<u64, tokio::sync::oneshot::Sender<Vec<u64>>>>,
    id: u64,
) -> (r: Option<tokio::sync::oneshot::Sender<Vec<u64>>>) {
    map.remove(&id).map(|entry| entry.1)
}

/// Relies on tokio::sync::oneshot::Sender::send: delivers the value to the
/// waiting receiver, or hands the very value back when the receiver is
/// gone.
#[verifier::external_body]
fn reply_send(tx: tokio::sync::oneshot::Sender<Vec<u64>>, data: Vec<u64>) -> (r: Result<
    (),
    Vec<u64>,
>)
    ensures
        r matches Err(v) ==> v@ == data@,
{
    tx.send(data)
}

/// Relies on std::sync::Arc::clone: another handle to the same shared
/// registry.
#[verifier::external_body]
pub(crate) fn clone_registry(
    map: &std::sync::Arc<dashmap::DashMap<u64, tokio::sync::oneshot::Sender<Vec<u64>>>>,
) -> (r: std::sync::Arc<dashmap::DashMap<u64, tokio::sync::oneshot::Sender<Vec<u64>>>>) {
    std::sync::Arc::clone(map)
}

/// What became of one message at the request/response sink.
pub enum SinkReply {
    /// The reply channel took the data.
    Replied,
    /// The requester was gone; its data comes back unchanged.
    ReceiverGone(Vec<u64>),
    /// No request with this id was waiting.
    NoPending,
}

/// The request/response sink: looks the message's id up in the shared
/// reply registry and answers the waiting request with the message's data.
/// It consumes without emitting.
pub struct HttpOutput {
    pub name: String,
    /// The output name this sink consumes.
    pub input_name: String,
    /// The shared registry of waiting requests: request id to reply channel.
    pub sender_map: std::sync::Arc<dashmap::DashMap<u64, tokio::sync::oneshot::Sender<Vec<u64>>>>,
}

impl HttpOutput {
    /// Builds the sink over the shared registry.
    pub fn new(
        name: String,
        input_name: String,
        sender_map: std::sync::Arc<
            dashmap::DashMap<u64, tokio::sync::oneshot::Sender<Vec<u64>>>,
        >,
    ) -> (r: HttpOutput)
        ensures
            r.name@ == name@,
            r.input_name@ == input_name@,
    {
        HttpOutput { name, input_name, sender_map }
    }

    /// Delivers one message to its waiting request. Whatever the shared
    /// registry held, the data handed onward (or back) is exactly the
    /// message's data; an id nobody awaits is reported, not an error.
    pub fn handle(&self, msg: &ProcessMessage) -> (r: SinkReply)
        ensures
            r matches SinkReply::ReceiverGone(v) ==> v@ == msg@.data,
    {
        let data = crate::messages::dup_words(&msg.data);
        match registry_remove(&self.sender_map, msg.id) {
            Some(tx) => match reply_send(tx, data) {
                Ok(()) => SinkReply::Replied,
                Err(v) => SinkReply::ReceiverGone(v),
            },
            None => SinkReply::NoPending,
        }
    }
}

} // verus!
