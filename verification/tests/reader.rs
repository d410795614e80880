use buf_stream_reader::BufStreamReader;
use buf_stream_reader::ByteSource;
use buf_stream_reader::Error;
use buf_stream_reader::MemorySource;
use buf_stream_reader::SeekFrom;
use buf_stream_reader::SourceError;

fn counting_bytes() -> Vec<u8> {
    (0u16..256).map(|v| v as u8).collect()
}

fn reader_over(data: Vec<u8>, window: usize) -> BufStreamReader<MemorySource> {
    BufStreamReader::new(MemorySource::new(data), window)
}

#[test]
fn seeking_backward_within_buffer() {
    let arr = counting_bytes();
    let mut reader = reader_over(arr.clone(), 16);
    let mut buffer = vec![0u8; 7];

    assert_eq!(reader.read(&mut buffer).unwrap(), buffer.len());
    assert_eq!(&buffer[..], &arr[0..7]);

    assert_eq!(reader.seek(SeekFrom::Current(-4)).unwrap(), 3);
    assert_eq!(reader.read(&mut buffer).unwrap(), 7);
    assert_eq!(&buffer[..], &arr[3..10]);
}

#[test]
fn seeking_backward_before_buffer_fails() {
    let arr = counting_bytes();
    let mut reader = reader_over(arr, 16);

    assert_eq!(reader.seek(SeekFrom::Start(96)).unwrap(), 96);
    assert_eq!(reader.seek(SeekFrom::Start(95)), Err(Error::Unreachable));
    assert_eq!(reader.seek(SeekFrom::Current(-1)), Err(Error::Unreachable));
}

#[test]
fn seeking_forward_is_not_limited() {
    let arr = counting_bytes();
    let mut reader = reader_over(arr.clone(), 16);
    let mut buffer = vec![0u8; 7];

    assert_eq!(reader.seek(SeekFrom::Start(10)).unwrap(), 10);
    assert_eq!(reader.read(&mut buffer).unwrap(), buffer.len());
    assert_eq!(&buffer[..], &arr[10..17]);

    assert_eq!(reader.seek(SeekFrom::Current(122)).unwrap(), 139);
    assert_eq!(reader.read(&mut buffer).unwrap(), buffer.len());
    assert_eq!(&buffer[..], &arr[139..146]);
}

#[test]
fn sequential_reads_reproduce_stream() {
    let data: Vec<u8> = (0u8..23).map(|v| v.wrapping_mul(7)).collect();
    let mut reader = reader_over(data.clone(), 5);
    let mut collected = Vec::new();

    for chunk in [1usize, 4, 7, 2, 6, 9] {
        let mut buffer = vec![0u8; chunk];
        let n = reader.read(&mut buffer).unwrap();
        collected.extend_from_slice(&buffer[..n]);
        if n < chunk {
            break;
        }
    }
    assert_eq!(collected, data);
    // the final call above short-read the remainder; the next one signals
    // exhaustion
    let mut buffer = vec![0u8; 4];
    assert_eq!(reader.read(&mut buffer), Err(Error::Exhausted));
}

#[test]
fn read_after_seek_matches_sequential_read() {
    let arr = counting_bytes();
    let p = 37u64;

    let mut seeker = reader_over(arr.clone(), 8);
    assert_eq!(seeker.seek(SeekFrom::Start(p)).unwrap(), p);
    let mut from_seek = vec![0u8; 12];
    assert_eq!(seeker.read(&mut from_seek).unwrap(), 12);

    let mut sequential = reader_over(arr, 8);
    let mut skipped = vec![0u8; p as usize];
    assert_eq!(sequential.read(&mut skipped).unwrap(), p as usize);
    let mut from_sequential = vec![0u8; 12];
    assert_eq!(sequential.read(&mut from_sequential).unwrap(), 12);

    assert_eq!(from_seek, from_sequential);
}

#[test]
fn absolute_seek_before_base_fails_without_state_change() {
    let arr = counting_bytes();
    let mut reader = reader_over(arr.clone(), 4);

    assert_eq!(reader.seek(SeekFrom::Start(10)).unwrap(), 10);
    assert_eq!(reader.offset(), 8);
    assert_eq!(reader.current(), 2);

    assert_eq!(reader.seek(SeekFrom::Start(7)), Err(Error::Unreachable));
    assert_eq!(reader.offset(), 8);
    assert_eq!(reader.current(), 2);

    let mut buffer = vec![0u8; 2];
    assert_eq!(reader.read(&mut buffer).unwrap(), 2);
    assert_eq!(&buffer[..], &arr[10..12]);
}

#[test]
fn backward_seek_past_window_start_fails_without_state_change() {
    let arr = counting_bytes();
    let mut reader = reader_over(arr.clone(), 4);

    assert_eq!(reader.seek(SeekFrom::Start(10)).unwrap(), 10);
    assert_eq!(reader.seek(SeekFrom::Current(-3)), Err(Error::Unreachable));
    assert_eq!(reader.offset(), 8);
    assert_eq!(reader.current(), 2);

    // a step that stays inside the window still works
    assert_eq!(reader.seek(SeekFrom::Current(-2)).unwrap(), 8);
    let mut buffer = vec![0u8; 2];
    assert_eq!(reader.read(&mut buffer).unwrap(), 2);
    assert_eq!(&buffer[..], &arr[8..10]);
}

#[test]
fn backward_seek_of_extreme_magnitude_fails() {
    let arr = counting_bytes();
    let mut reader = reader_over(arr, 16);
    assert_eq!(reader.seek(SeekFrom::Start(5)).unwrap(), 5);
    assert_eq!(reader.seek(SeekFrom::Current(i64::MIN)), Err(Error::Unreachable));
    assert_eq!(reader.offset(), 0);
    assert_eq!(reader.current(), 5);
}

#[test]
fn forward_seek_advances_base_by_discarded_windows() {
    let data: Vec<u8> = (0u8..20).collect();
    let mut reader = reader_over(data, 4);

    // two full windows of four bytes each are discarded on the way to 10
    assert_eq!(reader.seek(SeekFrom::Start(10)).unwrap(), 10);
    assert_eq!(reader.offset(), 8);
    assert_eq!(reader.current(), 2);
    assert_eq!(reader.offset() + reader.current(), 10);

    // two more full windows are discarded on the way from 10 to 19
    assert_eq!(reader.seek(SeekFrom::Current(9)).unwrap(), 19);
    assert_eq!(reader.offset(), 16);
    assert_eq!(reader.current(), 3);
    assert_eq!(reader.offset() + reader.current(), 19);
}

#[test]
fn seek_from_end_always_fails() {
    let mut reader = reader_over(counting_bytes(), 16);
    assert_eq!(reader.seek(SeekFrom::End(0)), Err(Error::Unsupported));
    assert_eq!(reader.seek(SeekFrom::End(5)), Err(Error::Unsupported));
    assert_eq!(reader.seek(SeekFrom::End(-5)), Err(Error::Unsupported));

    // the length of the stream is known to this test, but the reader still
    // refuses: the limitation is categorical
    let mut buffer = vec![0u8; 7];
    reader.read(&mut buffer).unwrap();
    assert_eq!(reader.seek(SeekFrom::End(-1)), Err(Error::Unsupported));

    let mut empty = reader_over(Vec::new(), 16);
    assert_eq!(empty.seek(SeekFrom::End(0)), Err(Error::Unsupported));
}

#[test]
fn empty_source_fails_on_first_use() {
    // construction over a zero-length source succeeds (the window is filled
    // lazily); the exhaustion surfaces on the first read or seek
    let mut reader = reader_over(Vec::new(), 8);
    assert_eq!(reader.offset(), 0);
    assert_eq!(reader.current(), 0);

    let mut buffer = vec![0u8; 1];
    assert_eq!(reader.read(&mut buffer), Err(Error::Exhausted));

    let mut reader2 = reader_over(Vec::new(), 8);
    assert_eq!(reader2.seek(SeekFrom::Start(0)), Err(Error::Exhausted));
}

#[test]
fn exhaustion_is_absorbed_into_a_short_read() {
    let data: Vec<u8> = (0u8..10).collect();
    let mut reader = reader_over(data.clone(), 4);
    let mut buffer = vec![0u8; 25];

    let n = reader.read(&mut buffer).unwrap();
    assert_eq!(n, 10);
    assert_eq!(&buffer[..10], &data[..]);
    assert_eq!(&buffer[10..], &[0u8; 15][..]);

    assert_eq!(reader.read(&mut buffer), Err(Error::Exhausted));
}

#[test]
fn seeking_at_or_past_stream_end_exhausts() {
    let data: Vec<u8> = (0u8..8).collect();
    let mut reader = reader_over(data.clone(), 4);
    assert_eq!(reader.seek(SeekFrom::Start(1000)), Err(Error::Exhausted));

    // a seek exactly to the end of the stream cannot land inside any window
    let mut reader2 = reader_over(data.clone(), 4);
    assert_eq!(reader2.seek(SeekFrom::Start(8)), Err(Error::Exhausted));

    let mut reader3 = reader_over(data, 4);
    assert_eq!(reader3.seek(SeekFrom::Current(i64::MAX)), Err(Error::Exhausted));
}

#[test]
fn reading_into_an_empty_buffer() {
    let data: Vec<u8> = (0u8..4).collect();
    let mut reader = reader_over(data, 4);
    let mut empty: Vec<u8> = Vec::new();
    // nothing is asked for and nothing is pending to fail on
    assert_eq!(reader.read(&mut empty).unwrap(), 0);
}

/// A source that produces its bytes at most two at a time, so that the
/// reader's windows are filled only partially even away from the end of the
/// stream.
struct TricklingSource {
    data: Vec<u8>,
    pos: usize,
}

impl ByteSource for TricklingSource {
    fn remaining(&self) -> vstd::seq::Seq<u8> {
        unreachable!()
    }

    fn never_fails(&self) -> bool {
        unreachable!()
    }

    fn fills_fully(&self) -> bool {
        unreachable!()
    }

    fn read_into(&mut self, buf: &mut Vec<u8>) -> Result<usize, SourceError> {
        let left = self.data.len() - self.pos;
        let n = buf.len().min(left).min(2);
        for k in 0..n {
            buf[k] = self.data[self.pos + k];
        }
        self.pos += n;
        Ok(n)
    }
}

#[test]
fn partially_filled_windows_are_handled() {
    let data = counting_bytes();
    let source = TricklingSource { data: data.clone(), pos: 0 };
    let mut reader = BufStreamReader::new(source, 16);

    let mut buffer = vec![0u8; 7];
    assert_eq!(reader.read(&mut buffer).unwrap(), 7);
    assert_eq!(&buffer[..], &data[0..7]);

    // every window holds two live bytes, so the base advances in steps of two
    assert_eq!(reader.offset(), 6);
    assert_eq!(reader.current(), 1);

    assert_eq!(reader.seek(SeekFrom::Start(40)).unwrap(), 40);
    assert_eq!(reader.read(&mut buffer).unwrap(), 7);
    assert_eq!(&buffer[..], &data[40..47]);
}

/// A source that fails on every fill attempt.
struct FailingSource;

impl ByteSource for FailingSource {
    fn remaining(&self) -> vstd::seq::Seq<u8> {
        unreachable!()
    }

    fn never_fails(&self) -> bool {
        unreachable!()
    }

    fn fills_fully(&self) -> bool {
        unreachable!()
    }

    fn read_into(&mut self, _buf: &mut Vec<u8>) -> Result<usize, SourceError> {
        Err(SourceError)
    }
}

#[test]
fn source_failures_are_propagated_verbatim() {
    let mut reader = BufStreamReader::new(FailingSource, 8);
    let mut buffer = vec![0u8; 4];
    assert_eq!(reader.read(&mut buffer), Err(Error::Source(SourceError)));
    assert_eq!(reader.seek(SeekFrom::Start(3)), Err(Error::Source(SourceError)));
    // requests that are refused before any fill attempt keep their own errors
    assert_eq!(reader.seek(SeekFrom::Current(-1)), Err(Error::Unreachable));
    assert_eq!(reader.seek(SeekFrom::End(0)), Err(Error::Unsupported));
}
