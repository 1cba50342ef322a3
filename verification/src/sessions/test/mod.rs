pub mod test_session;
pub mod test_sessions_list;
