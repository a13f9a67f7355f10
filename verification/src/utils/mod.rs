pub mod text;
pub mod tpl;
pub mod quasi;
