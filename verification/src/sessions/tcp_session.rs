//! A session of a TCP client: who it is, the protocol it speaks and the
//! namespace it works in.
use vstd::prelude::*;
use vstd::string::StringExecFns;

use crate::sessions::my_sb_session::{copy_opt_string, SessionNameAndVersion};
use crate::sessions::session_id::SessionId;

verus! {

/// The versions a package of new messages is written in.
#[derive(Clone, Copy, Debug, PartialEq, Eq, Structural)]
pub struct PacketProtVer {
    pub tcp_protocol_version: i32,
    pub packet_version: u8,
}

pub struct MyServiceBusTcpSession {
    session_id: SessionId,
    /// The id of the TCP connection.
    connection_id: i32,
    protocol_version: i32,
    delivery_packet_version: u8,
    name: String,
    version: Option<String>,
    env_info: Option<String>,
    /// Namespace the connection works in. It starts in the one it is given
    /// and a `SetNamespace` packet moves it before the first publish or
    /// subscribe.
    namespace: String,
    /// Raised by the first publish or subscribe; from then on the namespace
    /// stays.
    namespace_locked: bool,
}

impl MyServiceBusTcpSession {
    pub closed spec fn sid(&self) -> SessionId {
        self.session_id
    }

    pub closed spec fn conn_id(&self) -> i32 {
        self.connection_id
    }

    pub closed spec fn client_name(&self) -> Seq<char> {
        self.name@
    }

    pub closed spec fn client_version(&self) -> Option<String> {
        self.version
    }

    pub closed spec fn client_env(&self) -> Option<String> {
        self.env_info
    }

    pub fn get_session_id(&self) -> (r: SessionId)
        ensures
            r == self.sid(),
    {
        self.session_id
    }

    pub fn get_connection_id(&self) -> (r: i32)
        ensures
            r == self.conn_id(),
    {
        self.connection_id
    }

    pub closed spec fn protocol(&self) -> i32 {
        self.protocol_version
    }

    pub closed spec fn packet_version(&self) -> u8 {
        self.delivery_packet_version
    }

    pub closed spec fn namespace_name(&self) -> Seq<char> {
        self.namespace@
    }

    pub closed spec fn is_namespace_locked(&self) -> bool {
        self.namespace_locked
    }

    pub fn new(
        session_id: SessionId,
        connection_id: i32,
        name: String,
        version: Option<String>,
        env_info: Option<String>,
        protocol_version: i32,
        namespace: String,
    ) -> (r: Self)
        ensures
            r.sid() == session_id,
            r.conn_id() == connection_id,
            r.client_name() == name@,
            r.client_version() == version,
            r.client_env() == env_info,
            r.protocol() == protocol_version,
            r.packet_version() == 0,
            r.namespace_name() == namespace@,
            !r.is_namespace_locked(),
    {
        MyServiceBusTcpSession {
            session_id,
            connection_id,
            protocol_version,
            delivery_packet_version: 0,
            name,
            version,
            env_info,
            namespace,
            namespace_locked: false,
        }
    }

    pub fn get_key(&self) -> (r: &i32)
        ensures
            *r == self.conn_id(),
    {
        &self.connection_id
    }

    pub fn get_namespace(&self) -> (r: &str)
        ensures
            r@ == self.namespace_name(),
    {
        self.namespace.as_str()
    }

    /// Called by publish and subscribe: from now on the namespace stays.
    pub fn lock_namespace(&mut self)
        ensures
            final(self).is_namespace_locked(),
            final(self).namespace_name() == old(self).namespace_name(),
            final(self).sid() == old(self).sid(),
            final(self).conn_id() == old(self).conn_id(),
            final(self).protocol() == old(self).protocol(),
            final(self).packet_version() == old(self).packet_version(),
    {
        self.namespace_locked = true;
    }

    /// Moves the connection to another namespace. Naming the one it is in is
    /// always accepted; another one is refused once the namespace is locked.
    pub fn set_namespace(&mut self, namespace: String) -> (r: Result<(), String>)
        ensures
            final(self).is_namespace_locked() == old(self).is_namespace_locked(),
            final(self).sid() == old(self).sid(),
            final(self).conn_id() == old(self).conn_id(),
            final(self).protocol() == old(self).protocol(),
            final(self).packet_version() == old(self).packet_version(),
            r is Ok <==> (namespace@ == old(self).namespace_name() || !old(self).is_namespace_locked()),
            r is Ok ==> final(self).namespace_name() == namespace@,
            old(self).is_namespace_locked() ==> final(self).namespace_name()
                == old(self).namespace_name(),
            r is Err ==> final(self).namespace_name() == old(self).namespace_name() && r->Err_0@
                == "Namespace can not be changed to '"@ + namespace@
                + "' after the connection has published or subscribed"@,
    {
        if self.namespace == namespace {
            return Ok(());
        }
        if self.namespace_locked {
            let prefix = String::from_str("Namespace can not be changed to '");
            let msg = prefix.concat(namespace.as_str()).concat(
                "' after the connection has published or subscribed",
            );
            return Err(msg);
        }
        self.namespace = namespace;
        Ok(())
    }

    pub fn update_deliver_message_packet_version(&mut self, value: u8)
        ensures
            final(self).packet_version() == value,
            final(self).protocol() == old(self).protocol(),
            final(self).namespace_name() == old(self).namespace_name(),
            final(self).is_namespace_locked() == old(self).is_namespace_locked(),
            final(self).sid() == old(self).sid(),
            final(self).conn_id() == old(self).conn_id(),
    {
        self.delivery_packet_version = value;
    }

    pub fn get_protocol_version(&self) -> (r: i32)
        ensures
            r == self.protocol(),
    {
        self.protocol_version
    }

    /// The versions to write new messages in. The protocol version is known
    /// once the client greeted.
    pub fn get_messages_to_deliver_protocol_version(&self) -> (r: PacketProtVer)
        requires
            self.protocol() != 0,
        ensures
            r.tcp_protocol_version == self.protocol(),
            r.packet_version == self.packet_version(),
    {
        let protocol_version = self.get_protocol_version();
        let packet_version = self.delivery_packet_version;
        PacketProtVer { tcp_protocol_version: protocol_version, packet_version }
    }

    pub fn get_name_and_version(&self) -> (r: SessionNameAndVersion)
        ensures
            r.name@ == self.client_name(),
            match (self.client_version(), r.version) {
                (Some(a), Some(b)) => a@ == b@,
                (None, None) => true,
                _ => false,
            },
            match (self.client_env(), r.env_info) {
                (Some(a), Some(b)) => a@ == b@,
                (None, None) => true,
                _ => false,
            },
    {
        SessionNameAndVersion {
            name: self.name.clone(),
            version: copy_opt_string(&self.version),
            env_info: copy_opt_string(&self.env_info),
        }
    }
}

} // verus!
