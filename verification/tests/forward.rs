use nsbox::events::Error;
use nsbox::forward::{
    forward_buffer, forward_fd, forward_iter, read_fd_until_full, ForwardFd, ForwardIter, IOAction,
    Transfer, BUFFER_SIZE,
};

#[test]
fn buffer_is_written_out() {
    let mut written = 0;
    let mut buffer = b"abcdef".to_vec();
    assert_eq!(forward_buffer(&mut written, &mut buffer, None), Transfer::Write);
    assert_eq!(forward_buffer(&mut written, &mut buffer, Some(Ok(4))), Transfer::Write);
    assert_eq!(buffer, b"ef");
    assert_eq!(forward_buffer(&mut written, &mut buffer, Some(Ok(2))), Transfer::Finished(Ok(6)));
    assert!(buffer.is_empty());
}

#[test]
fn empty_buffer_needs_no_write() {
    let mut written = 0;
    let mut buffer = Vec::new();
    assert_eq!(forward_buffer(&mut written, &mut buffer, None), Transfer::Finished(Ok(0)));
}

#[test]
fn failed_write_keeps_buffer() {
    let mut written = 0;
    let mut buffer = b"abc".to_vec();
    assert_eq!(
        forward_buffer(&mut written, &mut buffer, Some(Err(libc::EPIPE))),
        Transfer::Finished(Err(Error::Errno(libc::EPIPE)))
    );
    assert_eq!(buffer, b"abc");
}

#[test]
fn reading_until_full() {
    assert_eq!(BUFFER_SIZE, 1024);
    let mut count = 0;
    let mut buffer = vec![0; 1000];
    assert_eq!(read_fd_until_full(&mut count, &buffer, None), Transfer::Read { at: 1000 });
    buffer.extend_from_slice(&[1; 20]);
    assert_eq!(read_fd_until_full(&mut count, &buffer, Some(Ok(20))), Transfer::Read { at: 1020 });
    buffer.extend_from_slice(&[1; 4]);
    assert_eq!(
        read_fd_until_full(&mut count, &buffer, Some(Ok(4))),
        Transfer::Finished(Ok(IOAction { bytes_transferred: 24, try_again: false }))
    );
}

#[test]
fn reading_with_full_buffer() {
    let mut count = 0;
    // a buffer that is just full is read into once more
    assert_eq!(
        read_fd_until_full(&mut count, &vec![0; 1024], None),
        Transfer::Read { at: 1024 }
    );
    assert_eq!(
        read_fd_until_full(&mut count, &vec![0; 1025], None),
        Transfer::Finished(Ok(IOAction { bytes_transferred: 0, try_again: false }))
    );
}

#[test]
fn reading_that_would_wait() {
    let mut count = 3;
    assert_eq!(
        read_fd_until_full(&mut count, &vec![0; 3], Some(Err(libc::EAGAIN))),
        Transfer::Finished(Ok(IOAction { bytes_transferred: 3, try_again: true }))
    );
    assert_eq!(
        read_fd_until_full(&mut count, &vec![0; 3], Some(Err(libc::EIO))),
        Transfer::Finished(Err(Error::Errno(libc::EIO)))
    );
}

#[test]
fn actions() {
    assert_eq!(IOAction::again(3), IOAction { bytes_transferred: 3, try_again: true });
    assert_eq!(IOAction::done(3), IOAction { bytes_transferred: 3, try_again: false });
}

#[test]
fn between_descriptors() {
    let mut state = ForwardFd::start();
    let mut buffer = Vec::new();
    assert_eq!(forward_fd(&mut state, &mut buffer, None), Transfer::Read { at: 0 });
    buffer.extend_from_slice(b"hello");
    assert_eq!(forward_fd(&mut state, &mut buffer, Some(Ok(5))), Transfer::Read { at: 5 });
    assert_eq!(state, ForwardFd::Reading { bytes_read: 5 });
    assert_eq!(forward_fd(&mut state, &mut buffer, Some(Err(libc::EAGAIN))), Transfer::Write);
    assert_eq!(forward_fd(&mut state, &mut buffer, Some(Ok(2))), Transfer::Write);
    assert_eq!(buffer, b"llo");
    assert_eq!(
        forward_fd(&mut state, &mut buffer, Some(Ok(3))),
        Transfer::Finished(Ok(IOAction::done(5)))
    );
}

#[test]
fn between_descriptors_output_would_wait() {
    let mut state = ForwardFd::Writing { written: 2 };
    let mut buffer = b"llo".to_vec();
    assert_eq!(
        forward_fd(&mut state, &mut buffer, Some(Err(libc::EAGAIN))),
        Transfer::Finished(Ok(IOAction::again(0)))
    );
    assert_eq!(buffer, b"llo");
}

#[test]
fn between_descriptors_failures() {
    let mut state = ForwardFd::start();
    let mut buffer = Vec::new();
    assert_eq!(
        forward_fd(&mut state, &mut buffer, Some(Err(libc::EIO))),
        Transfer::Finished(Err(Error::Errno(libc::EIO)))
    );
    let mut state = ForwardFd::Writing { written: 0 };
    assert_eq!(
        forward_fd(&mut state, &mut buffer, Some(Err(libc::EPIPE))),
        Transfer::Finished(Err(Error::Errno(libc::EPIPE)))
    );
}

fn write_pieces(pieces: &Vec<Vec<u8>>, buffer: &mut Vec<u8>, chunk: usize) -> (Vec<u8>, usize) {
    let mut state = ForwardIter::start();
    let mut sent = Vec::new();
    let mut outcome = None;
    loop {
        match forward_iter(&mut state, pieces, buffer, outcome) {
            Transfer::Write => {
                let size = chunk.min(buffer.len());
                sent.extend_from_slice(&buffer[..size]);
                outcome = Some(Ok(size));
            }
            Transfer::Finished(r) => {
                return (sent, r.unwrap());
            }
            Transfer::Read { .. } => unreachable!(),
        }
    }
}

#[test]
fn pieces_are_written_in_order() {
    for chunk in [1, 7, 1000, 5000] {
        let pieces: Vec<Vec<u8>> = vec![vec![1; 600], vec![2; 600], Vec::new(), vec![3; 5]];
        let mut buffer = vec![9; 3];
        let (sent, count) = write_pieces(&pieces, &mut buffer, chunk);
        let mut expected = vec![9; 3];
        for piece in &pieces {
            expected.extend_from_slice(piece);
        }
        assert_eq!(sent, expected);
        assert_eq!(count, 1208);
        assert!(buffer.is_empty());
    }
}

#[test]
fn pieces_wait_until_the_buffer_is_large() {
    let pieces: Vec<Vec<u8>> = vec![vec![1; 600], vec![2; 424], vec![3; 5]];
    let mut state = ForwardIter::start();
    let mut buffer = Vec::new();
    assert_eq!(forward_iter(&mut state, &pieces, &mut buffer, None), Transfer::Write);
    assert_eq!(buffer.len(), 1024);
    assert_eq!(state.next, 2);
    assert_eq!(forward_iter(&mut state, &pieces, &mut buffer, Some(Ok(1024))), Transfer::Write);
    assert_eq!(buffer, [3; 5]);
    assert_eq!(
        forward_iter(&mut state, &pieces, &mut buffer, Some(Err(libc::EPIPE))),
        Transfer::Finished(Err(Error::Errno(libc::EPIPE)))
    );
    assert_eq!(buffer, [3; 5]);
    assert_eq!(
        forward_iter(&mut state, &pieces, &mut buffer, Some(Ok(5))),
        Transfer::Finished(Ok(1029))
    );
}

#[test]
fn no_pieces() {
    let mut state = ForwardIter::start();
    let mut buffer = Vec::new();
    assert_eq!(
        forward_iter(&mut state, &Vec::new(), &mut buffer, None),
        Transfer::Finished(Ok(0))
    );
}

#[test]
fn count_is_by_how_much_the_buffer_grew() {
    let mut buffer = vec![7; 10];
    let mut count = 0;
    let mut outcome = None;
    for size in [100, 0, 300] {
        assert_eq!(
            read_fd_until_full(&mut count, &buffer, outcome),
            Transfer::Read { at: buffer.len() }
        );
        buffer.extend_from_slice(&vec![1; size]);
        outcome = Some(Ok(size));
    }
    read_fd_until_full(&mut count, &buffer, outcome);
    assert_eq!(
        read_fd_until_full(&mut count, &buffer, Some(Err(libc::EAGAIN))),
        Transfer::Finished(Ok(IOAction::again(400)))
    );
    assert_eq!(buffer.len(), 410);
}

#[test]
fn error_in_the_old_buffer_takes_no_piece() {
    let pieces: Vec<Vec<u8>> = vec![vec![1; 5]];
    let mut state = ForwardIter::start();
    let mut buffer = vec![9; 3];
    forward_iter(&mut state, &pieces, &mut buffer, None);
    forward_iter(&mut state, &pieces, &mut buffer, Some(Ok(2)));
    assert_eq!(
        forward_iter(&mut state, &pieces, &mut buffer, Some(Err(libc::EPIPE))),
        Transfer::Finished(Err(Error::Errno(libc::EPIPE)))
    );
    assert_eq!((state.next, state.written), (0, 2));
    assert_eq!(buffer, [9]);
}
