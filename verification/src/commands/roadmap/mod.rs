pub mod add;
pub mod list;
pub mod new;
pub mod next;
pub mod show;
