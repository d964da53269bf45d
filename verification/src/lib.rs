//! Request logic of an idol-group catalogue web service: upload admission and
//! image naming, group listing and ordering, group confirmation, and sign-in.

pub mod text;
pub mod reply;
pub mod upload;
pub mod get_groups;
pub mod get_group;
pub mod get_members;
pub mod login;
pub mod confirm_group;
pub mod add_group;
pub mod add_images;
