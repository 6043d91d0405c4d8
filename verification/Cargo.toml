[package]
name = "rusplorer"
version = "0.1.0"
edition = "2021"
publish = false

[dependencies]
arboard = { version = "3", default-features = false }
eframe = { version = "0.27", default-features = false, features = ["default_fonts", "glow"] }
egui = "0.27"
egui_extras = { version = "0.27", default-features = false }
image = { version = "0.25", default-features = false, features = ["jpeg", "png", "bmp", "gif", "webp"] }
notify = "6"
reqwest = { version = "0.12", default-features = false, features = ["blocking", "json"] }
serde = { version = "1", features = ["derive"] }
serde_json = "1"
sha2 = "0.10"
winapi = { version = "0.3", features = ["winuser", "shellapi", "fileapi", "handleapi", "ioapiset", "winbase", "timezoneapi", "processthreadsapi", "winnt", "minwinbase", "sysinfoapi"] }
