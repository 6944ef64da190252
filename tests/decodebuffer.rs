use content_loader::{write_all_bytes, ByteSink, Decodebuffer, DecodebufferError};

struct ShortWriter {
    buf: Vec<u8>,
    write_len: usize,
}

impl ByteSink for ShortWriter {
    fn write(&mut self, buf: &[u8]) -> std::result::Result<usize, std::io::Error> {
        if buf.len() > self.write_len {
            self.buf.extend_from_slice(&buf[..self.write_len]);
            Ok(self.write_len)
        } else {
            self.buf.extend_from_slice(buf);
            Ok(buf.len())
        }
    }
}

struct WouldblockWriter {
    buf: Vec<u8>,
    last_blocked: usize,
    block_every: usize,
}

impl ByteSink for WouldblockWriter {
    fn write(&mut self, buf: &[u8]) -> std::result::Result<usize, std::io::Error> {
        if self.last_blocked < self.block_every {
            self.buf.extend_from_slice(buf);
            self.last_blocked += 1;
            Ok(buf.len())
        } else {
            self.last_blocked = 0;
            Err(std::io::Error::from(std::io::ErrorKind::WouldBlock))
        }
    }
}

struct StuckWriter;

impl ByteSink for StuckWriter {
    fn write(&mut self, _buf: &[u8]) -> std::result::Result<usize, std::io::Error> {
        Ok(0)
    }
}

#[test]
fn short_writer() {
    let mut short_writer = ShortWriter { buf: vec![], write_len: 10 };

    let mut decode_buf = Decodebuffer::new(100);
    decode_buf.push(b"0123456789");
    decode_buf.repeat(10, 90).unwrap();
    let repeats = 1000;
    for _ in 0..repeats {
        assert_eq!(decode_buf.len(), 100);
        decode_buf.repeat(10, 50).unwrap();
        assert_eq!(decode_buf.len(), 150);
        decode_buf.drain_to_window_size_writer(&mut short_writer).unwrap();
        assert_eq!(decode_buf.len(), 100);
    }

    assert_eq!(short_writer.buf.len(), repeats * 50);
    decode_buf.drain_to_writer(&mut short_writer).unwrap();
    assert_eq!(short_writer.buf.len(), repeats * 50 + 100);
}

#[test]
fn wouldblock_writer() {
    let mut short_writer = WouldblockWriter { buf: vec![], last_blocked: 0, block_every: 5 };

    let mut decode_buf = Decodebuffer::new(100);
    decode_buf.push(b"0123456789");
    decode_buf.repeat(10, 90).unwrap();
    let repeats = 1000;
    for _ in 0..repeats {
        assert_eq!(decode_buf.len(), 100);
        decode_buf.repeat(10, 50).unwrap();
        assert_eq!(decode_buf.len(), 150);
        loop {
            match decode_buf.drain_to_window_size_writer(&mut short_writer) {
                Ok(written) => {
                    if written == 0 {
                        break;
                    }
                }
                Err(e) => {
                    if e.kind() == std::io::ErrorKind::WouldBlock {
                        continue;
                    } else {
                        panic!("Unexpected error {:?}", e);
                    }
                }
            }
        }
        assert_eq!(decode_buf.len(), 100);
    }

    assert_eq!(short_writer.buf.len(), repeats * 50);
    loop {
        match decode_buf.drain_to_writer(&mut short_writer) {
            Ok(written) => {
                if written == 0 {
                    break;
                }
            }
            Err(e) => {
                if e.kind() == std::io::ErrorKind::WouldBlock {
                    continue;
                } else {
                    panic!("Unexpected error {:?}", e);
                }
            }
        }
    }
    assert_eq!(short_writer.buf.len(), repeats * 50 + 100);
}

#[test]
fn repeat_copies_overlapping_back_reference() {
    let mut d = Decodebuffer::new(100);
    d.push(b"ab");
    d.repeat(2, 5).unwrap();
    assert_eq!(d.drain(), b"abababa".to_vec());
    assert!(d.is_empty());
}

#[test]
fn repeat_reaches_into_dictionary() {
    let mut d = Decodebuffer::new(100);
    d.dict_content = b"xyz".to_vec();
    d.push(b"a");
    d.repeat(3, 2).unwrap();
    assert_eq!(d.drain(), b"ayz".to_vec());

    let mut d = Decodebuffer::new(100);
    d.dict_content = b"xyz".to_vec();
    d.push(b"a");
    d.repeat(2, 4).unwrap();
    assert_eq!(d.drain(), b"azaza".to_vec());
}

#[test]
fn repeat_errors() {
    let mut d = Decodebuffer::new(100);
    d.dict_content = b"xy".to_vec();
    d.push(b"a");
    assert_eq!(
        d.repeat(5, 1),
        Err(DecodebufferError::NotEnoughBytesInDictionary { got: 2, need: 4 })
    );
    let mut d = Decodebuffer::new(2);
    d.push(b"abc");
    assert_eq!(d.repeat(5, 1), Err(DecodebufferError::OffsetTooBig { offset: 5, buf_len: 3 }));
    assert_eq!(d.len(), 3);
}

#[test]
fn drains_keep_the_window() {
    let mut d = Decodebuffer::new(3);
    assert_eq!(d.can_drain_to_window_size(), None);
    d.push(b"abcdef");
    assert_eq!(d.can_drain(), 6);
    assert_eq!(d.can_drain_to_window_size(), Some(3));
    assert_eq!(d.drain_to_window_size(), Some(b"abc".to_vec()));
    assert_eq!(d.drain_to_window_size(), None);
    let mut target = [0u8; 2];
    assert_eq!(d.read(&mut target).unwrap(), 0);
    assert_eq!(d.read_all(&mut target).unwrap(), 2);
    assert_eq!(&target, b"de");
    assert_eq!(d.len(), 1);
    d.reset(10);
    assert!(d.is_empty());
}

#[test]
fn read_takes_what_lies_beyond_the_window() {
    let mut d = Decodebuffer::new(2);
    d.push(b"hello");
    let mut target = [0u8; 8];
    assert_eq!(d.read(&mut target).unwrap(), 3);
    assert_eq!(&target[..3], b"hel");
    assert_eq!(d.len(), 2);
}

#[test]
fn write_all_bytes_reports_progress() {
    let mut sink: Vec<u8> = Vec::new();
    let (n, res) = write_all_bytes(&mut sink, b"payload");
    assert_eq!(n, 7);
    assert!(res.is_ok());
    assert_eq!(sink, b"payload".to_vec());

    let mut short = ShortWriter { buf: vec![], write_len: 3 };
    let (n, res) = write_all_bytes(&mut short, b"abcdefgh");
    assert_eq!((n, res.is_ok()), (8, true));
    assert_eq!(short.buf, b"abcdefgh".to_vec());

    let mut blocking = WouldblockWriter { buf: vec![], last_blocked: 0, block_every: 0 };
    let (n, res) = write_all_bytes(&mut blocking, b"abc");
    assert_eq!(n, 0);
    assert_eq!(res.unwrap_err().kind(), std::io::ErrorKind::WouldBlock);

    let (n, res) = write_all_bytes(&mut StuckWriter, b"abc");
    assert_eq!(n, 0);
    assert_eq!(res.unwrap_err().kind(), std::io::ErrorKind::WriteZero);
}
