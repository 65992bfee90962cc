[package]
name = "sitekit"
version = "0.1.0"
edition = "2021"
publish = false

[dependencies]
base64 = "=0.22.1"
markdown = "=1.0.0"
toml = "=0.8.23"
serde = { version = "=1.0.229", features = ["derive"] }
serde_json = "=1.0.154"
yew = { version = "0.21", features = ["csr"] }
yew-router = "0.18"
gloo-net = "0.6"
gloo-storage = "0.3"
gloo-utils = "0.2"
gloo-events = "0.2"
gloo-timers = "0.3"
js-sys = "0.3"
wasm-bindgen = "0.2"
wasm-bindgen-futures = "0.4"
futures = "0.3"
serde-wasm-bindgen = "0.6"
log = "0.4"
wasm-logger = "0.2"
web-sys = { version = "0.3", features = ["Window", "Document", "Element", "HtmlElement", "HtmlInputElement", "HtmlTextAreaElement", "HtmlImageElement", "HtmlCanvasElement", "CanvasRenderingContext2d", "Node", "EventTarget", "Event", "MouseEvent", "KeyboardEvent", "DragEvent", "DataTransfer", "File", "FileList", "FileReader", "BeforeUnloadEvent", "TouchEvent", "TouchList", "Touch", "Storage", "Location", "History", "UrlSearchParams", "VisualViewport", "DomRect", "CssStyleDeclaration"] }
