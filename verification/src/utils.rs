//! What the prompt says of the user's machine.

pub mod check_env;
pub mod get_user_info_string;
