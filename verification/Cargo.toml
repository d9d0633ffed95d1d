[package]
name = "projectwc"
version = "0.1.0"
edition = "2021"
publish = false

[dependencies]
smithay = { version = "=0.7.0", default-features = false, features = ["desktop", "wayland_frontend", "backend_drm", "backend_gbm", "backend_egl", "backend_winit", "backend_libinput", "backend_session_libseat", "backend_udev", "renderer_gl", "renderer_multi"] }
smithay-drm-extras = "=0.1.0"
drm = "=0.14.1"
drm-fourcc = "=2.2.0"
tracing = "=0.1.44"
