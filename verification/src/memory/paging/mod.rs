pub mod page_table_manager;
pub mod table;
