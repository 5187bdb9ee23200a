use deej_oled::frame::FrameBuffer;
use deej_oled::screen::{
    copy_to_display, init_display_buffers, new_wire_frame, FrameConsumer, FramePipeline,
    SCREEN_HEIGHT, SCREEN_WIDTH,
};

#[test]
fn display_is_256_by_64() {
    assert_eq!(SCREEN_WIDTH, 256);
    assert_eq!(SCREEN_HEIGHT, 64);
}

#[test]
fn at_start_each_mailbox_holds_one_blank_buffer() {
    let mut pipeline = init_display_buffers();
    let ready = pipeline.take_ready().unwrap();
    let next = pipeline.take_next().unwrap();
    assert_eq!(ready.id(), 0);
    assert_eq!(next.id(), 1);
    for frame in [&ready, &next] {
        assert_eq!(frame.width(), 256);
        assert_eq!(frame.height(), 64);
        assert_eq!(frame.as_bytes(), &[0u8; 8192][..]);
    }
    assert!(pipeline.take_ready().is_none());
    assert!(pipeline.take_next().is_none());
}

#[test]
fn the_consumer_starts_with_the_buffer_in_next() {
    let mut pipeline = init_display_buffers();
    let consumer = FrameConsumer::start(&mut pipeline).unwrap();
    assert_eq!(consumer.displayed().id(), 1);
    assert_eq!(consumer.displayed().as_bytes(), &[0u8; 8192][..]);
    assert!(pipeline.take_next().is_none());
    // It can start only once.
    assert!(FrameConsumer::start(&mut pipeline).is_none());
    assert_eq!(pipeline.take_ready().unwrap().id(), 0);
}

#[test]
fn a_producer_that_signals_before_the_consumer_started_overwrites_a_buffer() {
    let mut pipeline = init_display_buffers();
    let frame = pipeline.take_ready().unwrap();
    let displaced = pipeline.signal_next(frame);
    assert_eq!(displaced.unwrap().id(), 1);
    let consumer = FrameConsumer::start(&mut pipeline).unwrap();
    assert_eq!(consumer.displayed().id(), 0);
    assert!(pipeline.take_ready().is_none());
}

#[test]
fn the_two_buffers_take_turns() {
    let mut pipeline = init_display_buffers();
    let mut consumer = FrameConsumer::start(&mut pipeline).unwrap();
    for round in 0..50usize {
        // Producer: wait on ready, draw, signal on next.
        let mut frame = pipeline.take_ready().expect("a buffer is ready");
        assert!(pipeline.take_ready().is_none());
        assert_eq!(frame.id() as usize, round % 2);
        frame.clear();
        frame.set_pixel(round, 0, 15);
        assert!(pipeline.signal_next(frame).is_none());
        // Consumer: wait on next, flush, hand the old buffer back.
        let incoming = pipeline.take_next().expect("a frame is next");
        assert!(pipeline.take_next().is_none());
        assert_eq!(incoming.id() as usize, round % 2);
        assert_eq!(incoming.get_pixel(round, 0), 15);
        assert_eq!(consumer.displayed().id() as usize, (round + 1) % 2);
        assert!(consumer.show(incoming, &mut pipeline).is_none());
        assert_eq!(consumer.displayed().id() as usize, round % 2);
        assert_eq!(consumer.displayed().get_pixel(round, 0), 15);
    }
}

#[test]
fn the_consumer_may_run_ahead_of_the_producer() {
    let mut pipeline = init_display_buffers();
    let mut consumer = FrameConsumer::start(&mut pipeline).unwrap();
    // The consumer looks first and finds nothing.
    assert!(pipeline.take_next().is_none());
    let frame = pipeline.take_ready().unwrap();
    assert!(pipeline.take_next().is_none());
    assert!(pipeline.signal_next(frame).is_none());
    // The producer looks again before the consumer has handed a buffer back.
    assert!(pipeline.take_ready().is_none());
    let incoming = pipeline.take_next().unwrap();
    assert!(pipeline.take_ready().is_none());
    assert!(consumer.show(incoming, &mut pipeline).is_none());
    assert_eq!(pipeline.take_ready().unwrap().id(), 1);
}

#[test]
fn a_signal_overwrites_and_tells() {
    let a = FrameBuffer::new(10, 2, 2).unwrap();
    let b = FrameBuffer::new(11, 2, 2).unwrap();
    let c = FrameBuffer::new(12, 2, 2).unwrap();
    let d = FrameBuffer::new(13, 2, 2).unwrap();
    let mut pipeline = FramePipeline::new(a, b);
    assert_eq!(pipeline.signal_ready(c).unwrap().id(), 10);
    assert_eq!(pipeline.take_ready().unwrap().id(), 12);
    assert_eq!(pipeline.signal_next(d).unwrap().id(), 11);
    assert_eq!(pipeline.take_next().unwrap().id(), 13);
    let e = FrameBuffer::new(14, 2, 2).unwrap();
    assert!(pipeline.signal_next(e).is_none());
    assert!(pipeline.signal_ready(FrameBuffer::new(15, 2, 2).unwrap()).is_none());
}

#[test]
fn show_hands_back_the_buffer_that_was_on_display() {
    let a = FrameBuffer::new(1, 2, 2).unwrap();
    let b = FrameBuffer::new(2, 2, 2).unwrap();
    let c = FrameBuffer::new(3, 2, 2).unwrap();
    let d = FrameBuffer::new(4, 2, 2).unwrap();
    let mut pipeline = FramePipeline::new(a, d);
    let mut consumer = FrameConsumer::new(b);
    let first = pipeline.take_ready().unwrap();
    assert_eq!(first.id(), 1);
    assert!(consumer.show(c, &mut pipeline).is_none());
    assert_eq!(consumer.displayed().id(), 3);
    assert_eq!(pipeline.take_ready().unwrap().id(), 2);
    assert_eq!(pipeline.take_next().unwrap().id(), 4);
}

#[test]
fn a_new_driver_frame_is_black_and_of_the_display_size() {
    let wire = new_wire_frame();
    assert_eq!(wire.width, 256);
    assert_eq!(wire.height, 64);
    assert_eq!(wire.buffer.len(), 8192);
    assert!(wire.buffer.iter().all(|&b| b == 0));
}

#[test]
fn copy_to_display_puts_the_even_pixel_in_the_high_nibble() {
    let mut canvas = FrameBuffer::new(0, 256, 64).unwrap();
    for y in 0..64usize {
        for x in 0..256usize {
            canvas.set_pixel(x, y, ((x * 7 + y * 3) % 16) as u8);
        }
    }
    let mut wire = new_wire_frame();
    for b in wire.buffer.iter_mut() {
        *b = 0xA5;
    }
    assert!(copy_to_display(&canvas, &mut wire));
    for y in 0..64usize {
        for x in (0..256usize).step_by(2) {
            let even = ((x * 7 + y * 3) % 16) as u8;
            let odd = (((x + 1) * 7 + y * 3) % 16) as u8;
            assert_eq!(wire.buffer[(y * 256 + x) / 2], (even << 4) | odd);
        }
    }
    // The canvas holds the same pixels the other way round.
    assert_eq!(canvas.as_bytes()[0], wire.buffer[0].rotate_left(4));
    assert_eq!((wire.width, wire.height), (256, 64));
}

#[test]
fn copy_to_display_covers_a_smaller_frame_and_leaves_the_rest() {
    let mut canvas = FrameBuffer::new(0, 4, 2).unwrap();
    for (i, v) in [1u8, 2, 3, 4, 5, 6, 7, 8].iter().enumerate() {
        canvas.set_pixel(i % 4, i / 4, *v);
    }
    let mut wire = new_wire_frame();
    wire.width = 4;
    wire.height = 2;
    for b in wire.buffer.iter_mut() {
        *b = 0xEE;
    }
    assert!(copy_to_display(&canvas, &mut wire));
    assert_eq!(&wire.buffer[..5], &[0x12, 0x34, 0x56, 0x78, 0xEE]);
    assert!(wire.buffer[4..].iter().all(|&b| b == 0xEE));
}

#[test]
fn copy_to_display_refuses_what_does_not_fit() {
    let mut wire = new_wire_frame();
    wire.buffer[0] = 0x77;
    let small = FrameBuffer::new(0, 4, 2).unwrap();
    assert!(!copy_to_display(&small, &mut wire));
    wire.width = 3;
    wire.height = 2;
    let odd = FrameBuffer::new(0, 3, 2).unwrap();
    assert!(!copy_to_display(&odd, &mut wire));
    wire.width = 512;
    wire.height = 2;
    let wide = FrameBuffer::new(0, 512, 2).unwrap();
    assert!(!copy_to_display(&wide, &mut wire));
    wire.width = 256;
    wire.height = 65;
    let tall = FrameBuffer::new(0, 256, 65).unwrap();
    assert!(!copy_to_display(&tall, &mut wire));
    assert_eq!(wire.buffer[0], 0x77);
    assert!(wire.buffer[1..].iter().all(|&b| b == 0));
}
