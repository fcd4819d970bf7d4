use resampler::kernel::Kernel;
use resampler::queue::SampleQueue;
use resampler::resampler::Resampler;
use resampler::stream::{process_from_source, StreamingSource};

// One fixed-point unit per whole amplitude step, so the classic float
// staircase 1.0, 2.0, ... maps to 65536, 131072, ...
const SC: i64 = 65536;

#[test]
fn test_impl() {
    let source_fs = 44100;
    let target_fs = 88200;

    let queue = SampleQueue::with_capacity(512);
    let mut rs = Resampler::new(Kernel::Sinc { taps: 8 });

    let mut queue = queue;
    for n in [1i64, 2, 3, 4, 5, 6, 7, 8].iter() {
        queue.push(*n * SC).unwrap();
    }
    let mut source = StreamingSource::new(queue);

    let mut out = vec![0i64; 16];
    process_from_source(&mut rs, &mut source, &mut out, source_fs, target_fs);
    for v in out.iter() {
        println!(" {} ", v);
    }

    for n in [9i64, 10, 11, 12, 13, 14, 15, 16].iter() {
        source.feed(*n * SC).unwrap();
    }

    let mut out2 = vec![0i64; 16];
    process_from_source(&mut rs, &mut source, &mut out2, source_fs, target_fs);
    for v in out2.iter() {
        println!(" {} ", v);
    }
}

#[test]
fn test_gen() {
    let source_fs = 44100;
    let target_fs = 88200;

    let mut queue = SampleQueue::with_capacity(512);
    let mut rs = Resampler::new(Kernel::Sinc { taps: 8 });

    for n in [1i64, 2, 3, 4, 5, 6, 7, 8].iter() {
        queue.push(*n * SC).unwrap();
    }

    // gather by hand, substituting silence like a generator closure would
    let needed = 9;
    let mut input = Vec::new();
    for _ in 0..needed {
        input.push(queue.pop().unwrap_or(0));
    }
    let mut out = vec![0i64; 16];
    rs.process(&input, &mut out, source_fs, target_fs);
    for v in out.iter() {
        println!(" {} ", v);
    }

    for n in [9i64, 10, 11, 12, 13, 14, 15, 16].iter() {
        queue.push(*n * SC).unwrap();
    }
    let mut input2 = Vec::new();
    for _ in 0..needed {
        input2.push(queue.pop().unwrap_or(0));
    }
    let mut out2 = vec![0i64; 16];
    rs.process(&input2, &mut out2, source_fs, target_fs);
    for v in out2.iter() {
        println!(" {} ", v);
    }
}
