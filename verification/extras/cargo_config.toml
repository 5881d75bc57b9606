# rustls asserts, in a debug build, that it never has a fatal alert to send
# after its own close_notify. A peer can make it have one.
[profile.dev.package.rustls]
debug-assertions = false

[profile.test.package.rustls]
debug-assertions = false
