use ilass::decoder::{AudioReceiver, ChunkedAudioReceiver};

/// Records every slice it receives, so the windowing can be inspected.
struct Recorder {
    pushes: Vec<Vec<i16>>,
}

impl AudioReceiver for Recorder {
    type Output = Vec<Vec<i16>>;
    type Error = ();

    fn push_samples(&mut self, samples: &Vec<i16>) -> Result<(), ()> {
        self.pushes.push(samples.clone());
        Ok(())
    }

    fn finish(self) -> Result<Vec<Vec<i16>>, ()> {
        Ok(self.pushes)
    }
}

/// Fails on every push, to exercise the error path.
struct Refuser;

impl AudioReceiver for Refuser {
    type Output = ();
    type Error = i32;

    fn push_samples(&mut self, _samples: &Vec<i16>) -> Result<(), i32> {
        Err(17)
    }

    fn finish(self) -> Result<(), i32> {
        Ok(())
    }
}

#[test]
fn chunking_forwards_fixed_windows() {
    let mut rx = ChunkedAudioReceiver::new(4, Recorder { pushes: Vec::new() });
    assert_eq!(rx.push_samples(&vec![1, 2, 3, 4, 5, 6]), Ok(()));
    assert_eq!(rx.push_samples(&vec![7, 8, 9]), Ok(()));
    let windows = rx.finish().unwrap();
    // Two full windows, then the buffered single sample on finalize.
    assert_eq!(windows, vec![vec![1, 2, 3, 4], vec![5, 6, 7, 8], vec![9]]);
}

#[test]
fn chunking_flushes_partial_window_on_finish() {
    let mut rx = ChunkedAudioReceiver::new(8, Recorder { pushes: Vec::new() });
    assert_eq!(rx.push_samples(&vec![1, 2, 3]), Ok(()));
    let windows = rx.finish().unwrap();
    assert_eq!(windows, vec![vec![1, 2, 3]]);
}

#[test]
fn chunking_with_nothing_buffered_forwards_nothing_on_finish() {
    let mut rx = ChunkedAudioReceiver::new(2, Recorder { pushes: Vec::new() });
    assert_eq!(rx.push_samples(&vec![1, 2, 3, 4]), Ok(()));
    let windows = rx.finish().unwrap();
    assert_eq!(windows, vec![vec![1, 2], vec![3, 4]]);
}

#[test]
fn chunking_succeeds_below_a_window_even_when_sink_refuses() {
    let mut rx = ChunkedAudioReceiver::new(4, Refuser);
    // No window fills up, so the refusing sink is never consulted.
    assert_eq!(rx.push_samples(&vec![1, 2, 3]), Ok(()));
    // The fourth sample completes a window and the sink's error comes out.
    assert_eq!(rx.push_samples(&vec![4]), Err(17));
}
