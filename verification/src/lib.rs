pub mod text;
pub mod document;
pub mod wrap;
pub mod message;
pub mod rebase;
pub mod status;
pub mod context;
pub mod details;
pub mod reword;
pub mod layout;
pub mod rewords;
pub mod session;
pub mod keys;
pub mod view;
pub mod rebase_view;
