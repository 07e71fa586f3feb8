//! A software rasterizer: colours, a depth-tested framebuffer, triangle and
//! line scan conversion on fixed-point screen coordinates, the per-body
//! procedural shading rules, and a star-field background.

pub mod color;
pub mod framebuffer;
pub mod mesh;
pub mod segment;
pub mod shading;
pub mod skybox;
pub mod triangle;

pub use color::Color;
pub use framebuffer::Framebuffer;
pub use shading::ShaderType;
pub use skybox::Skybox;
