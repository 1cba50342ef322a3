//! The connection of a test client: the packages it was sent and whether it
//! is still connected.
use vstd::prelude::*;
use vstd::string::StringExecFns;

use crate::queues::queue_id::QueueId;
use crate::queues::subscriber_id::SubscriberId;
use crate::sessions::session_id::SessionId;

verus! {

/// One package sent to a test client.
pub struct TestDeliveryMessage<TMessage> {
    pub topic_id: String,
    pub queue_id: QueueId,
    pub subscriber_id: SubscriberId,
    pub messages: Vec<TMessage>,
}

pub struct TestConnectionData<TMessage> {
    pub id: SessionId,
    pub ip: String,
    pub connected: bool,
    pub sent_packets: Vec<TestDeliveryMessage<TMessage>>,
    pub name: String,
    pub version: Option<String>,
}

impl<TMessage> TestConnectionData<TMessage> {
    /// Whether the client is still connected.
    pub open spec fn is_up(&self) -> bool {
        self.connected
    }

    /// The packages sent and not yet taken, oldest first.
    pub open spec fn sent(&self) -> Seq<TestDeliveryMessage<TMessage>> {
        self.sent_packets@
    }

    /// A connected client named "Test" that was sent nothing.
    pub fn new(id: SessionId, ip: String) -> (r: Self)
        ensures
            r.id == id,
            r.ip == ip,
            r.is_up(),
            r.sent() == Seq::<TestDeliveryMessage<TMessage>>::empty(),
            r.name@ == "Test"@,
            r.version is None,
    {
        TestConnectionData {
            id,
            ip,
            connected: true,
            sent_packets: Vec::new(),
            name: String::from_str("Test"),
            version: None,
        }
    }

    /// Records a package as sent.
    pub fn send_messages(
        &mut self,
        topic_id: String,
        queue_id: QueueId,
        subscriber_id: SubscriberId,
        messages: Vec<TMessage>,
    )
        ensures
            final(self).sent() == old(self).sent().push(
                TestDeliveryMessage { topic_id, queue_id, subscriber_id, messages },
            ),
            final(self).is_up() == old(self).is_up(),
            final(self).id == old(self).id,
    {
        self.sent_packets.push(TestDeliveryMessage { topic_id, queue_id, subscriber_id, messages });
    }

    /// Hands out the packages sent so far and forgets them.
    pub fn get_list_of_packets_and_clear_them(&mut self) -> (r: Vec<TestDeliveryMessage<TMessage>>)
        ensures
            r@ == old(self).sent(),
            final(self).sent() == Seq::<TestDeliveryMessage<TMessage>>::empty(),
            final(self).is_up() == old(self).is_up(),
            final(self).id == old(self).id,
    {
        let mut result = Vec::new();
        std::mem::swap(&mut self.sent_packets, &mut result);
        result
    }

    /// Disconnects; answers whether the client was connected, so only the
    /// first call answers `true`.
    pub fn disconnect(&mut self) -> (r: bool)
        ensures
            r == old(self).is_up(),
            !final(self).is_up(),
            final(self).sent() == old(self).sent(),
            final(self).id == old(self).id,
    {
        let was = self.connected;
        self.connected = false;
        was
    }

    pub fn is_connected(&self) -> (r: bool)
        ensures
            r == self.is_up(),
    {
        self.connected
    }
}

} // verus!
