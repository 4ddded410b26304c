[package]
name = "alass-util"
version = "0.1.0"
edition = "2021"
publish = false

[dependencies]
alass-core = "2.0.0"
byteorder = "1"
chardet = "0.2"
chrono = "0.4"
encoding_rs = "0.8"
fern = "*"
log = "0.4"
onnxruntime = "*"
subparse = "*"
tract-onnx = "*"
webrtc-vad = "*"
