pub mod goods;
pub mod names;
pub mod selection;
