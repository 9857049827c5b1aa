[package]
name = "mandelbrot"
version = "0.1.0"
edition = "2021"
publish = false

[dependencies]
argparse = "0.2"
bytemuck = { version = "1", features = ["derive"] }
image = { version = "0.24", default-features = false, features = ["png", "jpeg", "bmp", "tiff"] }
ocl = "0.19"
pbr = "1"
rocket = "0.5"
tracing = "0.1"
tracing-flame = "0.2"
tracing-subscriber = "0.3"
vulkano = "0.33"
