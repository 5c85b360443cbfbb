use talklike::stream::VecStream;

#[test]
fn read_fills_the_buffer_from_the_front() {
    let mut stream = VecStream::new(vec![1, 2, 3, 4, 5]);
    let mut buf = [0u8; 2];
    assert_eq!(stream.read(&mut buf), 2);
    assert_eq!(buf, [1, 2]);
    assert_eq!(stream.read(&mut buf), 2);
    assert_eq!(buf, [3, 4]);
    assert_eq!(stream.read(&mut buf), 1);
    assert_eq!(buf, [5, 4]);
    assert_eq!(stream.read(&mut buf), 0);
    assert_eq!(buf, [5, 4]);
}

#[test]
fn read_into_a_larger_buffer_keeps_the_rest() {
    let mut stream = VecStream::new(vec![9, 8]);
    let mut buf = [7u8; 4];
    assert_eq!(stream.read(&mut buf), 2);
    assert_eq!(buf, [9, 8, 7, 7]);
    assert_eq!(stream.read(&mut buf), 0);
}

#[test]
fn read_into_no_buffer_reads_nothing() {
    let mut stream = VecStream::new(vec![1]);
    let mut none: [u8; 0] = [];
    assert_eq!(stream.read(&mut none), 0);
    let mut one = [0u8; 1];
    assert_eq!(stream.read(&mut one), 1);
    assert_eq!(one, [1]);
}

#[test]
fn an_empty_stream_reads_nothing() {
    let mut stream = VecStream::new(vec![]);
    let mut buf = [3u8; 3];
    assert_eq!(stream.read(&mut buf), 0);
    assert_eq!(buf, [3, 3, 3]);
}
