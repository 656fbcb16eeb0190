use agnostos::input_smoke::{force_keyboard_overflow, hex_digits, keyboard_overflow_line, ready_line, trace_line};
use agnostos::keyboard::{classify, decoded_event, KeyKind, KeyStep, KeyboardEvent, KeyboardScancode};
use agnostos::mouse::{aux_enabled_config, check_ack, poll, MouseDelta, PacketState, Ps2Error, MOUSE_ACK};
use agnostos::platform::ring_buffer::RingBuffer;
use pc_keyboard::{layouts, HandleControl, KeyCode, KeyState, PS2Keyboard, ScancodeSet1};
use ringbuf::traits::{Consumer, Producer, SplitRef};
use ringbuf::StaticRb;

#[test]
fn decoder_handles_printable_keys_modifiers_and_arrows() {
    let mut decoder = PS2Keyboard::new(ScancodeSet1::new(), layouts::Us104Key, HandleControl::Ignore);

    let key = decoder.add_byte(0x1e).unwrap().unwrap();
    assert_eq!(key.code, KeyCode::A);
    assert_eq!(key.state, KeyState::Down);

    let control = decoder.add_byte(0x1d).unwrap().unwrap();
    assert_eq!(control.code, KeyCode::LControl);
    assert_eq!(control.state, KeyState::Down);

    let arrow_up = decoder.add_byte(0xe0).unwrap();
    assert!(arrow_up.is_none());
    let arrow_up = decoder.add_byte(0x48).unwrap().unwrap();
    assert_eq!(arrow_up.code, KeyCode::ArrowUp);
    assert_eq!(arrow_up.state, KeyState::Down);
}

#[test]
fn queue_preserves_fifo_order_across_wraparound() {
    let mut queue = StaticRb::<KeyboardScancode, 2>::default();
    let (mut producer, mut consumer) = queue.split_ref();

    producer.try_push(KeyboardScancode::new(1)).unwrap();
    producer.try_push(KeyboardScancode::new(2)).unwrap();
    assert_eq!(consumer.try_pop().map(|code| code.get()), Some(1));
    producer.try_push(KeyboardScancode::new(3)).unwrap();

    assert_eq!(consumer.try_pop().map(|code| code.get()), Some(2));
    assert_eq!(consumer.try_pop().map(|code| code.get()), Some(3));
    assert_eq!(consumer.try_pop(), None);
}

#[test]
fn full_queue_rejects_new_scancodes_and_counts_them() {
    let mut queue = StaticRb::<KeyboardScancode, 2>::default();
    let (mut producer, _) = queue.split_ref();
    let mut dropped = 0;

    producer.try_push(KeyboardScancode::new(1)).unwrap();
    producer.try_push(KeyboardScancode::new(2)).unwrap();
    if producer.try_push(KeyboardScancode::new(3)).is_err() {
        dropped += 1;
    }

    assert_eq!(dropped, 1);
}

#[test]
fn key_events_become_shell_events() {
    assert_eq!(classify(KeyKind::LControl, true, false), KeyStep::SetCtrl(true));
    assert_eq!(classify(KeyKind::RControl, false, true), KeyStep::SetCtrl(false));
    assert_eq!(classify(KeyKind::ArrowUp, true, false), KeyStep::Emit(KeyboardEvent::ArrowUp));
    assert_eq!(classify(KeyKind::ArrowUp, false, false), KeyStep::Decode);
    assert_eq!(classify(KeyKind::Tab, true, true), KeyStep::Emit(KeyboardEvent::Tab));
    assert_eq!(classify(KeyKind::C, true, true), KeyStep::Emit(KeyboardEvent::CtrlC));
    assert_eq!(classify(KeyKind::C, true, false), KeyStep::Decode);
    assert_eq!(classify(KeyKind::L, true, true), KeyStep::Emit(KeyboardEvent::CtrlL));
    assert_eq!(classify(KeyKind::OemPlus, true, true), KeyStep::Emit(KeyboardEvent::ZoomIn));
    assert_eq!(classify(KeyKind::OemMinus, true, true), KeyStep::Emit(KeyboardEvent::ZoomOut));
    assert_eq!(classify(KeyKind::OemMinus, false, true), KeyStep::Decode);
    assert_eq!(classify(KeyKind::Other, true, true), KeyStep::Decode);
    assert_eq!(decoded_event(Some('a')), Some(KeyboardEvent::Char('a')));
    assert_eq!(decoded_event(None), None);
}

#[test]
fn mouse_packets_decode_movement_and_buttons() {
    let mut state = PacketState::new();
    assert_eq!(state.feed(0x09), None);
    assert_eq!(state.feed(5), None);
    let event = state.feed(3).unwrap();
    assert_eq!(event.dx.get(), 5);
    assert_eq!(event.dy.get(), -3);
    assert!(event.left && !event.right && !event.middle);

    assert_eq!(state.feed(0x38), None);
    assert_eq!(state.feed(0xfe), None);
    let event = state.feed(0xff).unwrap();
    assert_eq!(event.dx, MouseDelta::new(-2));
    assert_eq!(event.dy, MouseDelta::new(1));
}

#[test]
fn out_of_sync_and_overflowing_packets_are_dropped() {
    let mut state = PacketState::new();
    assert_eq!(state.feed(0x00), None);
    assert_eq!(state.feed(0x48), None);
    assert_eq!(state.feed(1), None);
    assert_eq!(state.feed(1), None);
    assert_eq!(state.feed(0x08), None);
    assert_eq!(state.feed(0), None);
    assert!(state.feed(0).is_some());
}

#[test]
fn polling_takes_bytes_from_the_queue_in_order() {
    let mut queue = RingBuffer::<u8, 256>::new();
    let mut state = PacketState::new();
    assert_eq!(poll(&mut queue, &mut state), None);
    queue.push(0x0a);
    queue.push(1);
    queue.push(2);
    assert_eq!(poll(&mut queue, &mut state), None);
    assert_eq!(poll(&mut queue, &mut state), None);
    let event = poll(&mut queue, &mut state).unwrap();
    assert!(event.right);
    assert_eq!((event.dx.get(), event.dy.get()), (1, -2));
    assert_eq!(queue.pop(), None);
}

#[test]
fn ring_buffers_keep_fifo_order_and_count_what_they_drop() {
    let mut queue = RingBuffer::<u8, 2>::new();
    queue.push(1);
    queue.push(2);
    queue.push(3);
    assert_eq!(queue.dropped(), 1);
    assert_eq!(queue.pop(), Some(1));
    queue.push(4);
    assert_eq!(queue.pop(), Some(2));
    assert_eq!(queue.pop(), Some(4));
    assert_eq!(queue.pop(), None);
}

#[test]
fn ps2_helpers_enable_the_aux_port_and_check_acks() {
    assert_eq!(aux_enabled_config(0b0010_0000), 0b0000_0010);
    assert_eq!(aux_enabled_config(0b0100_0001), 0b0100_0011);
    assert_eq!(check_ack(MOUSE_ACK), Ok(()));
    assert_eq!(check_ack(0xfe), Err(Ps2Error::UnexpectedResponse(0xfe)));
}

#[test]
fn smoke_lines_are_hex_traces() {
    assert_eq!(hex_digits(0x3f), (b'3', b'f'));
    assert_eq!(trace_line(b'K', 0xa0), vec![b'K', b'a', b'0', b'\n']);
    assert_eq!(ready_line(), vec![b'R', b'\n']);
    assert_eq!(keyboard_overflow_line(), vec![b'D', b'\n']);
}

#[test]
fn the_overflow_trigger_fires_once() {
    let mut triggered = false;
    assert!(!force_keyboard_overflow(0x31, &mut triggered));
    assert!(force_keyboard_overflow(0x30, &mut triggered));
    assert!(triggered);
    assert!(!force_keyboard_overflow(0x30, &mut triggered));
}

use agnostos::keyboard::{poll as poll_keyboard, pop_keyboard_scancode, push_keyboard_scancode, KeyDecoder, ScancodeQueue, KEYBOARD_QUEUE_SIZE};

#[test]
fn the_scancode_queue_is_first_in_first_out_and_refuses_when_full() {
    let mut queue = ScancodeQueue::new();
    assert_eq!(pop_keyboard_scancode(&mut queue), None);
    for i in 0..KEYBOARD_QUEUE_SIZE {
        assert!(push_keyboard_scancode(&mut queue, KeyboardScancode::new(i as u8)));
    }
    assert!(!push_keyboard_scancode(&mut queue, KeyboardScancode::new(7)));
    assert_eq!(pop_keyboard_scancode(&mut queue).map(|c| c.get()), Some(0));
    assert!(push_keyboard_scancode(&mut queue, KeyboardScancode::new(9)));
    for i in 1..KEYBOARD_QUEUE_SIZE {
        assert_eq!(pop_keyboard_scancode(&mut queue).map(|c| c.get()), Some(i as u8));
    }
    assert_eq!(pop_keyboard_scancode(&mut queue).map(|c| c.get()), Some(9));
    assert_eq!(pop_keyboard_scancode(&mut queue), None);
}

#[test]
fn polling_decodes_queued_scancodes_into_shell_events() {
    let mut queue = ScancodeQueue::new();
    let mut decoder = KeyDecoder::new();
    let mut ctrl_held = false;
    assert_eq!(poll_keyboard(&mut queue, &mut decoder, &mut ctrl_held), None);
    for code in [0x1e, 0x9e, 0x1d, 0x2e, 0x9d, 0x2e, 0xe0, 0x48] {
        assert!(push_keyboard_scancode(&mut queue, KeyboardScancode::new(code)));
    }
    assert_eq!(poll_keyboard(&mut queue, &mut decoder, &mut ctrl_held), Some(KeyboardEvent::Char('a')));
    assert_eq!(poll_keyboard(&mut queue, &mut decoder, &mut ctrl_held), None);
    assert_eq!(poll_keyboard(&mut queue, &mut decoder, &mut ctrl_held), None);
    assert!(ctrl_held);
    assert_eq!(poll_keyboard(&mut queue, &mut decoder, &mut ctrl_held), Some(KeyboardEvent::CtrlC));
    assert_eq!(poll_keyboard(&mut queue, &mut decoder, &mut ctrl_held), None);
    assert!(!ctrl_held);
    assert_eq!(poll_keyboard(&mut queue, &mut decoder, &mut ctrl_held), Some(KeyboardEvent::Char('c')));
    assert_eq!(poll_keyboard(&mut queue, &mut decoder, &mut ctrl_held), None);
    assert_eq!(poll_keyboard(&mut queue, &mut decoder, &mut ctrl_held), Some(KeyboardEvent::ArrowUp));
    assert_eq!(poll_keyboard(&mut queue, &mut decoder, &mut ctrl_held), None);
}
