pub mod active_sub_pages;
pub mod message;
pub mod pages_list;
pub mod sub_page;
