use ufo_gleaner::error::ErrorKind;
use ufo_gleaner::provider::{MockProvider, Provider};

#[test]
fn test_mockprovider_read() {
    let provider = MockProvider::new()
        .with_file("foo.txt", b"123")
        .with_file("bar.txt", b"xyz");

    let content = provider.read("foo.txt").unwrap();
    assert_eq!(content, b"123");

    let content2 = provider.read("bar.txt").unwrap();
    assert_eq!(content2, b"xyz");

    let err = provider.read("missing.txt").unwrap_err();
    assert_eq!(err.kind(), &ErrorKind::Io);
}

#[test]
fn mockprovider_later_file_replaces_earlier() {
    let provider = MockProvider::new()
        .with_file("a.txt", b"old")
        .with_file("a.txt", b"new");
    assert_eq!(provider.read("a.txt").unwrap(), b"new");
    assert_eq!(provider.root(), "");
}
