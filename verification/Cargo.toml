[package]
name = "braken_viz"
version = "0.1.0"
edition = "2021"
publish = false

[dependencies]
console_error_panic_hook = "0.1"
getrandom = { version = "0.3", features = ["wasm_js"] }
js-sys = "0.3"
serde = { version = "1", features = ["derive"] }
serde_json = "1"
wasm-bindgen = "0.2"
wasm-bindgen-futures = "0.4"
yew = { version = "0.21", features = ["csr"] }

[dependencies.web-sys]
version = "0.3"
features = [
    "AddEventListenerOptions",
    "Blob",
    "BlobPropertyBag",
    "CanvasRenderingContext2d",
    "CssStyleDeclaration",
    "Document",
    "DomRect",
    "DomTokenList",
    "Element",
    "ErrorEvent",
    "Event",
    "EventTarget",
    "HtmlAnchorElement",
    "HtmlCanvasElement",
    "HtmlElement",
    "HtmlInputElement",
    "HtmlSelectElement",
    "HtmlTextAreaElement",
    "InputEvent",
    "KeyboardEvent",
    "MediaQueryList",
    "MediaQueryListEvent",
    "MessageEvent",
    "MouseEvent",
    "Node",
    "Performance",
    "PointerEvent",
    "ResizeObserver",
    "Touch",
    "TouchEvent",
    "TouchList",
    "Url",
    "WheelEvent",
    "Window",
    "Worker",
    "WorkerOptions",
    "WorkerType",
    "console",
]
