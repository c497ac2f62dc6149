[package]
name = "audioprint"
version = "0.1.0"
edition = "2021"
publish = false

[dependencies]
anyhow = "=1.0.104"
colorous = "=1.0.16"
plotters = { version = "=0.3.7", default-features = false, features = ["bitmap_backend", "bitmap_encoder", "all_series", "all_elements", "full_palette"] }
rayon = "=1.12.0"
rodio = { version = "=0.22.2", default-features = false, features = ["wav", "mp3"] }
rustfft = "=6.4.1"
rusty-chromaprint = "=0.3.0"
symphonia = { version = "=0.5.5", features = ["mp3"] }
