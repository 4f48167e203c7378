//! Models of Foundation classes that apps rely on.

pub mod index_path;
pub mod index_set;
pub mod ns_http_cookie_storage;
pub mod ns_locale;
pub mod ns_notification_center;
pub mod ns_number_formatter;
pub mod ns_operation;
pub mod ns_process_info;
pub mod sort_descriptor;
pub mod url;
