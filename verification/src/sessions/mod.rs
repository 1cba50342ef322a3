pub mod http_delivery_package;
pub mod http_send_queue;
pub mod http_session_key;
pub mod my_sb_session;
pub mod send_queue_inner;
pub mod session_id;
pub mod tcp_session;
pub mod tcp_sessions_list;
pub mod test;
pub mod test_connection_data;
