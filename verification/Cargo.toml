[package]
name = "frontend"
version = "0.1.0"
edition = "2021"
publish = false

[dependencies]
serde = { version = "1", features = ["derive"] }
serde_json = "1"
toml = "0.8"
pulldown-cmark = "0.10"
leptos = { version = "0.6", features = ["csr"] }
leptos_router = { version = "0.6", features = ["csr"] }
gloo-net = { version = "0.5", features = ["http", "json"] }
gloo-timers = { version = "0.3", features = ["futures"] }
js-sys = "0.3"
wasm-bindgen = "0.2"
wasm-bindgen-futures = "0.4"
futures = "0.3"
log = "0.4"
web-sys = { version = "0.3", features = ["Blob", "File", "FileList", "FormData", "HtmlInputElement", "HtmlVideoElement", "HtmlMediaElement", "DragEvent", "DataTransfer", "MouseEvent", "TouchEvent", "TouchList", "Touch", "Window", "Document", "Element", "DomTokenList", "Storage", "Location", "Navigator", "Clipboard", "RequestCredentials", "MessageEvent", "WebSocket", "EventSource", "TextTrack", "TextTrackList", "TextTrackMode", "TimeRanges", "PointerEvent", "HtmlElement", "EventTarget", "Event"] }
