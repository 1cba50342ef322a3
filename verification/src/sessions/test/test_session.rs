//! A session of a test client: it keeps what it was sent so that a test can
//! look at it.
use vstd::prelude::*;
use vstd::string::StringExecFns;

use crate::queues::queue_id::QueueId;
use crate::queues::subscriber_id::SubscriberId;
use crate::sessions::my_sb_session::SessionNameAndVersion;
use crate::sessions::session_id::SessionId;
use crate::utils::clock::now_micros;

verus! {

/// One delivery to a test session.
pub struct TestDeliveryMessage<TMessage> {
    pub topic_id: String,
    pub queue_id: QueueId,
    pub subscriber_id: SubscriberId,
    pub _messages: Vec<TMessage>,
}

pub struct MyServiceBusTestSession<TMessage> {
    pub session_id: SessionId,
    pub _ip: String,
    pub connected: bool,
    pub sent_packets: Vec<TestDeliveryMessage<TMessage>>,
    pub name: String,
    pub _version: Option<String>,
    /// Moment of connection, in microseconds since the Unix epoch.
    pub connected_moment: i64,
}

impl<TMessage> MyServiceBusTestSession<TMessage> {
    /// Whether the session is still connected.
    pub open spec fn is_up(&self) -> bool {
        self.connected
    }

    /// The deliveries not yet taken, oldest first.
    pub open spec fn sent(&self) -> Seq<TestDeliveryMessage<TMessage>> {
        self.sent_packets@
    }

    /// A connected session named "Test", connected now.
    pub fn new(session_id: SessionId, ip: String) -> (r: Self)
        ensures
            r.session_id == session_id,
            r._ip == ip,
            r.is_up(),
            r.sent() == Seq::<TestDeliveryMessage<TMessage>>::empty(),
            r.name@ == "Test"@,
            r._version is None,
    {
        MyServiceBusTestSession {
            session_id,
            _ip: ip,
            connected: true,
            sent_packets: Vec::new(),
            name: String::from_str("Test"),
            _version: None,
            connected_moment: now_micros(),
        }
    }

    /// Hands out the deliveries so far and forgets them.
    pub fn get_list_of_packets_and_clear_them(&mut self) -> (r: Vec<TestDeliveryMessage<TMessage>>)
        ensures
            r@ == old(self).sent(),
            final(self).sent() == Seq::<TestDeliveryMessage<TMessage>>::empty(),
            final(self).is_up() == old(self).is_up(),
            final(self).session_id == old(self).session_id,
    {
        let mut result = Vec::new();
        std::mem::swap(&mut self.sent_packets, &mut result);
        result
    }

    pub fn get_session_id(&self) -> (r: SessionId)
        ensures
            r == self.session_id,
    {
        self.session_id
    }

    /// The name, and no version.
    pub fn get_name_and_version(&self) -> (r: SessionNameAndVersion)
        ensures
            r.name@ == self.name@,
            r.version is None,
            r.env_info is None,
    {
        SessionNameAndVersion { name: self.name.clone(), version: None, env_info: None }
    }

    /// Disconnects; answers whether the session was connected, so only the
    /// first call answers `true`.
    pub fn disconnect(&mut self) -> (r: bool)
        ensures
            r == old(self).is_up(),
            !final(self).is_up(),
            final(self).sent() == old(self).sent(),
            final(self).session_id == old(self).session_id,
    {
        let was = self.connected;
        self.connected = false;
        was
    }

    /// Records a delivery of messages of a queue to a subscriber.
    pub fn send_messages_to_connection(
        &mut self,
        topic_id: String,
        queue_id: QueueId,
        subscriber_id: SubscriberId,
        messages: Vec<TMessage>,
    )
        ensures
            final(self).sent() == old(self).sent().push(
                TestDeliveryMessage { topic_id, queue_id, subscriber_id, _messages: messages },
            ),
            final(self).is_up() == old(self).is_up(),
            final(self).session_id == old(self).session_id,
    {
        self.sent_packets.push(
            TestDeliveryMessage { topic_id, queue_id, subscriber_id, _messages: messages },
        );
    }
}

} // verus!
