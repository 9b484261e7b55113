//! CSS properties.

pub mod border;
pub mod border_radius;
pub mod color;
pub mod display;
pub mod font_family;
pub mod font_size;
pub mod height;
pub mod margin;
pub mod padding;
pub mod sides;
pub mod text_decoration;
pub mod width;
