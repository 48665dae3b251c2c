use file::BufferType;
use file::classify_file;

#[test]
fn test_ascii() {
    let ascii: [&[u8]; 2] = [
        b"Hello, world!\n",
        b"The quick brown fox\tjumps over the lazy dog.\r\n\x1b[0m",
    ];
    let result = ascii.map(classify_file);
    assert!(result.iter().all(|state| matches!(state, BufferType::Ascii)));
}

#[test]
fn test_latin1() {
    let latin1: [&[u8]; 3] = [
        b"caf\xe9 \xe0 la cr\xe8me\n",
        b"f\xfcr die T\xfcr: \xe9 \n",
        b"Portugal: na\xe7\xe3o, \xbfqu\xe9?\n",
    ];
    let result = latin1.map(classify_file);
    assert!(result.iter().all(|state| matches!(state, BufferType::Latin1)));
}

#[test]
fn test_utf8() {
    let utf8: [&[u8]; 3] = [
        b"caf\xc3\xa9 cr\xc3\xa8me\n",
        b"\xe4\xb8\xad\xe6\x96\x87 text \xf0\x9f\x98\x80\n",
        b"\xe6\x97\xa5\xe6\x9c\xac\xe8\xaa\x9e: \xe5\xad\x97\n",
    ];
    let result = utf8.map(classify_file);
    assert!(result.iter().all(|state| matches!(state, BufferType::Utf8)));
}

#[test]
fn test_utf16() {
    let utf16: [&[u8]; 4] = [
        b"\xff\xfeH\x00i\x00 \x00t\x00h\x00e\x00r\x00e\x00",
        b"\xfe\xff\x00H\x00i\x00 \x00t\x00h\x00e\x00r\x00e",
        b"\xff\xfe\x3d\xd8\x00\xde \x00o\x00k\x00",
        b"\xfe\xff\xd8\x3d\xde\x00\x00 \x00o\x00k",
    ];
    let result = utf16.map(classify_file);
    assert!(result.iter().all(|state| matches!(state, BufferType::Utf16)));
}

#[test]
fn test_data() {
    let data: &[u8] = b"\x00\x01\x02\x9f\xff\xfe\x80";
    assert!(matches!(classify_file(data), BufferType::Data));
}

#[test]
fn test_gb() {
    let data: [&[u8]; 2] = [
        b"\x81\x81\xd6\xd0\xce\xc4 gb text\n",
        b"\x81\x30\x81\x30 and \xb0\x81\x40\n",
    ];
    let result = data.map(classify_file);
    assert!(result.iter().all(|state| matches!(state, BufferType::Gb)));
}
