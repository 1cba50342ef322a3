pub mod clock;
pub mod min_message_id;
