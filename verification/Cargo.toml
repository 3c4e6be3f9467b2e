[package]
name = "fwocr"
version = "0.1.0"
edition = "2021"
publish = false

[dependencies]
anyhow = "=1.0.104"
diff = "=0.1.13"
ffmpeg-next = "=9.0.0"
futures = "=0.3.34"
indicatif = "=0.18.6"
windows = { version = "=0.44.0", features = ["Foundation", "Foundation_Collections", "Globalization", "Graphics_Imaging", "Media_Ocr", "Win32_Foundation", "Win32_System_WinRT"] }
