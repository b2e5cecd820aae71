[package]
name = "mandelbrot_polar"
version = "0.1.0"
edition = "2021"
publish = false

[dependencies]
bresenham = "*"
futures = "*"
image = "*"
num = "*"
plotters = { version = "*", default-features = false, features = ["ab_glyph", "bitmap_backend", "bitmap_encoder", "line_series"] }
tokio = { version = "*", features = ["macros", "rt-multi-thread"] }
