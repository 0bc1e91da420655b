use pixelflut_filler::codec::DataProducer;
use pixelflut_filler::gif::{EncodedFrame, Gif};
use pixelflut_filler::pipeline::{FramePipeline, MAX_IN_FLIGHT};

fn frame(tag: usize) -> EncodedFrame {
    EncodedFrame { bytes: vec![tag as u8, (tag >> 8) as u8], logical_len: tag * 10 }
}

fn tags(frames: &[EncodedFrame]) -> Vec<usize> {
    frames.iter().map(|f| f.logical_len / 10).collect()
}

#[test]
fn pipeline_bounds_the_jobs_in_flight() {
    assert_eq!(MAX_IN_FLIGHT, 16);
    let mut p = FramePipeline::new(40);
    for i in 0..16 {
        assert_eq!(p.next_job(), Some(i));
        assert_eq!(p.jobs_in_flight(), i + 1);
    }
    assert_eq!(p.next_job(), None);
    assert_eq!(p.jobs_in_flight(), 16);
    assert!(p.complete(7, frame(7)));
    assert_eq!(p.jobs_in_flight(), 15);
    assert_eq!(p.next_job(), Some(16));
    assert_eq!(p.next_job(), None);
}

#[test]
fn pipeline_files_frames_by_index_whatever_the_completion_order() {
    let n = 50;
    let mut p = FramePipeline::new(n);
    let mut out: Vec<usize> = Vec::new();
    let mut step = 0usize;
    while !p.is_drained() {
        while let Some(job) = p.next_job() {
            out.push(job);
        }
        assert!(out.len() <= MAX_IN_FLIGHT);
        assert!(!out.is_empty());
        step += 1;
        let pick = (step * 7 + 3) % out.len();
        let job = out.swap_remove(pick);
        assert!(p.complete(job, frame(job)));
    }
    let frames = p.into_frames().unwrap();
    assert_eq!(frames.len(), n);
    assert_eq!(tags(&frames), (0..n).collect::<Vec<usize>>());
    for (i, f) in frames.iter().enumerate() {
        assert_eq!(f.bytes, vec![i as u8, 0]);
    }
}

#[test]
fn pipeline_in_reverse_completion_order() {
    let mut p = FramePipeline::new(5);
    for i in 0..5 {
        assert_eq!(p.next_job(), Some(i));
    }
    assert_eq!(p.next_job(), None);
    for i in (0..5).rev() {
        assert!(!p.is_drained());
        assert!(p.complete(i, frame(i)));
    }
    assert!(p.is_drained());
    assert_eq!(tags(&p.into_frames().unwrap()), vec![0, 1, 2, 3, 4]);
}

#[test]
fn pipeline_refuses_frames_of_jobs_that_are_not_out() {
    let mut p = FramePipeline::new(3);
    assert!(!p.complete(0, frame(9)));
    assert_eq!(p.next_job(), Some(0));
    assert!(!p.complete(1, frame(9)));
    assert!(!p.complete(3, frame(9)));
    assert!(!p.complete(usize::MAX, frame(9)));
    assert!(p.complete(0, frame(0)));
    assert!(!p.complete(0, frame(9)));
    assert_eq!(p.next_job(), Some(1));
    assert_eq!(p.next_job(), Some(2));
    assert!(p.complete(2, frame(2)));
    assert!(p.complete(1, frame(1)));
    assert_eq!(tags(&p.into_frames().unwrap()), vec![0, 1, 2]);
}

#[test]
fn pipeline_gives_no_frames_before_it_is_drained() {
    let mut p = FramePipeline::new(2);
    assert!(!p.is_drained());
    p.next_job();
    p.next_job();
    p.complete(1, frame(1));
    assert!(!p.is_drained());
    assert!(p.into_frames().is_none());
    assert!(FramePipeline::new(1).into_frames().is_none());
}

#[test]
fn pipeline_without_frames_is_drained_at_once() {
    let mut p = FramePipeline::new(0);
    assert!(p.is_drained());
    assert_eq!(p.next_job(), None);
    assert_eq!(p.into_frames().unwrap().len(), 0);
}

#[test]
fn animation_takes_frames_encoded_elsewhere() {
    let mut gif = Gif::new(Vec::new(), 42, 0, 0);
    gif.install(vec![frame(0), frame(1), frame(2)]);
    assert_eq!(gif.encoded_frames().len(), 3);
    assert_eq!(gif.get_next_data().unwrap(), (vec![1, 0], Some(42)));
    assert_eq!(gif.get_next_data().unwrap(), (vec![2, 0], Some(42)));
    assert_eq!(gif.get_next_data().unwrap(), (vec![0, 0], Some(42)));
}
