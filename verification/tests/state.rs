use kaiju::embed::{alloc_memory, alloc_stack, dealloc_memory, pop_stack, state_info};
use kaiju::error::ErrorKind;
use kaiju::state::{Endianness, State, Value};

#[test]
fn test_stack() {
    let mut state = State::new(8, 0);
    assert_eq!(state.stack_pos(), 0);
    assert_eq!(state.stack_size(), 8);

    assert_eq!(
        state.alloc_stack_value(4).unwrap(),
        Value {
            address: 0,
            size: 4
        }
    );
    assert_eq!(
        state.alloc_stack_value(4).unwrap(),
        Value {
            address: 4,
            size: 4
        }
    );
    assert!(state.alloc_stack_value(4).is_err());

    assert_eq!(state.stack_pos(), 8);
    state.stack_pop_bytes(4).unwrap();
    assert_eq!(state.stack_pos(), 4);
    state.stack_pop_bytes(4).unwrap();
    assert_eq!(state.stack_pos(), 0);
}

#[test]
fn test_memory() {
    let mut state = State::new(8, 8);
    assert_eq!(state.free_blocks().to_vec(), vec![(0, 8)]);

    assert_eq!(
        state.alloc_memory_value(4).unwrap(),
        Value {
            address: 8,
            size: 4
        }
    );
    assert_eq!(state.free_blocks().to_vec(), vec![(4, 4)]);
    assert_eq!(
        state.alloc_memory_value(4).unwrap(),
        Value {
            address: 12,
            size: 4
        }
    );
    assert_eq!(state.free_blocks().to_vec(), vec![]);
    assert!(state.alloc_memory_value(4).is_err());

    let mut state = State::new(8, 8);
    let a = state.alloc_memory_value(4).unwrap();
    let b = state.alloc_memory_value(4).unwrap();
    assert_eq!(state.free_blocks().to_vec(), vec![]);
    state.dealloc_memory_value(&b).unwrap();
    assert_eq!(state.free_blocks().to_vec(), vec![(4, 4)]);
    state.dealloc_memory_value(&a).unwrap();
    assert_eq!(state.free_blocks().to_vec(), vec![(0, 8)]);
}

#[test]
fn new_state_is_zero_filled() {
    let state = State::new(4, 12);
    assert_eq!(state.all_size(), 16);
    assert_eq!(state.memory_size(), 12);
    assert_eq!(state.stack_free(), 4);
    assert_eq!(state.memory_free(), 12);
    assert_eq!(state.map_all().to_vec(), vec![0u8; 16]);
    assert_eq!(state.map_stack().len(), 4);
    assert_eq!(state.map_memory().len(), 12);
}

#[test]
fn whole_heap_can_be_taken_once() {
    let mut state = State::new(8, 32);
    let v = state.alloc_memory_value(32).unwrap();
    assert_eq!(v, Value { address: 8, size: 32 });
    let e = state.alloc_memory_value(32).unwrap_err();
    assert_eq!(e.kind, ErrorKind::OutOfMemory);
    assert_eq!(state.memory_free(), 0);
}

#[test]
fn push_past_stack_size_fails_and_changes_nothing() {
    let mut state = State::new(4, 4);
    state.stack_push_bytes(&[1, 2, 3, 4]).unwrap();
    let before = state.map_all().to_vec();
    let e = state.stack_push_bytes(&[9]).unwrap_err();
    assert_eq!(e.kind, ErrorKind::StackOverflow);
    assert_eq!(state.stack_pos(), 4);
    assert_eq!(state.map_all().to_vec(), before);
    let e = state.stack_push_data(&7u8).unwrap_err();
    assert_eq!(e.kind, ErrorKind::StackOverflow);
}

#[test]
fn pop_more_than_pushed_is_underflow() {
    let mut state = State::new(8, 0);
    state.stack_push_bytes(&[1, 2]).unwrap();
    assert_eq!(state.stack_pop_bytes(3).unwrap_err().kind, ErrorKind::StackUnderflow);
    assert_eq!(state.stack_pop_data::<u32>().unwrap_err().kind, ErrorKind::StackUnderflow);
    assert_eq!(state.stack_pop_bytes(2).unwrap(), vec![1, 2]);
}

#[test]
fn store_then_load_gives_the_value() {
    let mut state = State::new(8, 24);
    state.store_data(8, &-5i32).unwrap();
    assert_eq!(state.load_data::<i32>(8).unwrap(), -5);
    state.store_data(12, &0x0102_0304_0506_0708u64).unwrap();
    assert_eq!(state.load_data::<u64>(12).unwrap(), 0x0102_0304_0506_0708);
    state.store_data(20, &-2i64).unwrap();
    assert_eq!(state.load_data::<i64>(20).unwrap(), -2);
    state.store_data(0, &-1i8).unwrap();
    assert_eq!(state.load_data::<i8>(0).unwrap(), -1);
    state.store_data(1, &-300i16).unwrap();
    assert_eq!(state.load_data::<i16>(1).unwrap(), -300);
    state.store_data(3, &65000u16).unwrap();
    assert_eq!(state.load_data::<u16>(3).unwrap(), 65000);
    state.store_data(0, &usize::MAX).unwrap();
    assert_eq!(state.load_data::<usize>(0).unwrap(), usize::MAX);
    state.store_data(0, &isize::MIN).unwrap();
    assert_eq!(state.load_data::<isize>(0).unwrap(), isize::MIN);
    state.store_data(0, &(-7isize)).unwrap();
    assert_eq!(state.load_data::<isize>(0).unwrap(), -7);
}

#[test]
fn values_are_laid_out_in_the_host_order() {
    let mut state = State::new(8, 8);
    state.store_data(0, &0x1122_3344u32).unwrap();
    assert_eq!(state.load_bytes(0, 4).unwrap(), 0x1122_3344u32.to_ne_bytes().to_vec());
    state.store_data(8, &(-2i64)).unwrap();
    assert_eq!(state.load_bytes(8, 8).unwrap(), (-2i64).to_ne_bytes().to_vec());
    let expected = if 1u16.to_ne_bytes() == [1, 0] {
        Endianness::Little
    } else {
        Endianness::Big
    };
    assert_eq!(state.byte_order(), expected);
    assert_eq!(Endianness::native(), expected);
    state.store_bytes(0, &5i32.to_ne_bytes()).unwrap();
    assert_eq!(state.load_data::<i32>(0).unwrap(), 5);
}

#[test]
fn floats_travel_as_bit_patterns() {
    let mut state = State::new(16, 0);
    state.store_data(0, &1.5f32.to_bits()).unwrap();
    assert_eq!(f32::from_bits(state.load_data::<u32>(0).unwrap()), 1.5f32);
    assert_eq!(state.load_bytes(0, 4).unwrap(), 1.5f32.to_ne_bytes().to_vec());
    state.store_data(8, &(-0.25f64).to_bits()).unwrap();
    assert_eq!(f64::from_bits(state.load_data::<u64>(8).unwrap()), -0.25f64);
}

#[test]
fn push_and_pop_data() {
    let mut state = State::new(16, 0);
    let v = state.stack_push_data(&0x0a0b_0c0du32).unwrap();
    assert_eq!(v, Value::new(0, 4));
    let w = state.stack_push_data(&-9i64).unwrap();
    assert_eq!(w, Value::new(4, 8));
    assert_eq!(state.stack_pos(), 12);
    assert_eq!(state.stack_pop_data::<i64>().unwrap(), -9);
    assert_eq!(state.stack_pop_data::<u32>().unwrap(), 0x0a0b_0c0d);
    assert_eq!(state.stack_pos(), 0);
}

#[test]
fn access_outside_of_memory_is_out_of_bounds() {
    let mut state = State::new(4, 4);
    assert_eq!(state.load_bytes(5, 4).unwrap_err().kind, ErrorKind::OutOfBounds);
    assert_eq!(state.load_bytes(usize::MAX, 2).unwrap_err().kind, ErrorKind::OutOfBounds);
    assert_eq!(state.store_bytes(7, &[1, 2]).unwrap_err().kind, ErrorKind::OutOfBounds);
    assert_eq!(state.store_data(6, &1u32).unwrap_err().kind, ErrorKind::OutOfBounds);
    assert_eq!(state.load_data::<u64>(1).unwrap_err().kind, ErrorKind::OutOfBounds);
    assert_eq!(state.memory_move(0, 4, 5).unwrap_err().kind, ErrorKind::OutOfBounds);
    assert_eq!(state.memory_move(6, 4, 0).unwrap_err().kind, ErrorKind::OutOfBounds);
    assert_eq!(state.map(Value::new(4, 5)).unwrap_err().kind, ErrorKind::OutOfBounds);
    assert_eq!(state.map(Value::new(4, 4)).unwrap().to_vec(), vec![0u8; 4]);
    assert_eq!(state.load_bytes(8, 0).unwrap(), Vec::<u8>::new());
}

#[test]
fn memory_move_copies_a_window() {
    let mut state = State::new(8, 8);
    state.store_bytes(0, &[1, 2, 3, 4, 5, 6]).unwrap();
    state.memory_move(0, 4, 10).unwrap();
    assert_eq!(state.load_bytes(10, 4).unwrap(), vec![1, 2, 3, 4]);
    state.memory_move(0, 4, 2).unwrap();
    assert_eq!(state.load_bytes(0, 6).unwrap(), vec![1, 2, 1, 2, 3, 4]);
}

#[test]
fn stack_push_move_checks_its_source() {
    let mut state = State::new(8, 8);
    state.store_bytes(8, &[7, 8, 9]).unwrap();
    let v = state.stack_push_move(8, 3).unwrap();
    assert_eq!(v, Value::new(0, 3));
    assert_eq!(state.load_bytes(0, 3).unwrap(), vec![7, 8, 9]);
    assert_eq!(state.stack_push_move(15, 2).unwrap_err().kind, ErrorKind::OutOfBounds);
    assert_eq!(state.stack_push_move(8, 6).unwrap_err().kind, ErrorKind::StackOverflow);
    assert_eq!(state.stack_push_move(2, 3).unwrap_err().kind, ErrorKind::OverlappingMove);
    assert_eq!(state.stack_pos(), 3);
}

#[test]
fn stack_pop_move_checks_its_destination() {
    let mut state = State::new(8, 8);
    state.stack_push_bytes(&[1, 2, 3, 4]).unwrap();
    assert_eq!(state.stack_pop_move(15, 2).unwrap_err().kind, ErrorKind::OutOfBounds);
    assert_eq!(state.stack_pop_move(8, 5).unwrap_err().kind, ErrorKind::StackUnderflow);
    assert_eq!(state.stack_pop_move(3, 2).unwrap_err().kind, ErrorKind::OverlappingMove);
    state.stack_pop_move(8, 2).unwrap();
    assert_eq!(state.load_bytes(8, 2).unwrap(), vec![3, 4]);
    assert_eq!(state.stack_pos(), 2);
}

#[test]
fn stack_reset_takes_positions_below_the_size() {
    let mut state = State::new(8, 0);
    state.stack_push_bytes(&[1, 2, 3, 4]).unwrap();
    state.stack_reset(1).unwrap();
    assert_eq!(state.stack_pos(), 1);
    assert_eq!(state.stack_reset(8).unwrap_err().kind, ErrorKind::StackOverflow);
    assert_eq!(state.stack_pos(), 1);
}

#[test]
fn load_bytes_while_stops_at_the_first_refusal() {
    let mut state = State::new(8, 0);
    state.store_bytes(0, &[5, 6, 7, 0, 9]).unwrap();
    assert_eq!(state.load_bytes_while_non_zero(0), vec![5, 6, 7]);
    assert_eq!(state.load_bytes_while_non_zero(4), vec![9]);
    assert_eq!(state.load_bytes_while_non_zero(3), Vec::<u8>::new());
    assert_eq!(state.load_bytes_while_non_zero(100), Vec::<u8>::new());
    assert_eq!(state.load_bytes_while(0, |b| b < 7), vec![5, 6]);
    assert_eq!(state.load_bytes_while(1, |b| b != 9), vec![6, 7, 0]);
    assert_eq!(state.load_bytes_while(0, |_| true).len(), 8);
}

#[test]
fn first_fit_takes_the_first_block_that_holds_the_bytes() {
    let mut state = State::new(0, 32);
    let a = state.alloc_memory_value(8).unwrap();
    let b = state.alloc_memory_value(8).unwrap();
    let c = state.alloc_memory_value(8).unwrap();
    assert_eq!((a.address, b.address, c.address), (0, 8, 16));
    state.dealloc_memory_value(&a).unwrap();
    assert_eq!(state.free_blocks().to_vec(), vec![(0, 8), (24, 8)]);
    assert_eq!(state.find_free_memory(8).unwrap(), (0, 0, 8));
    assert_eq!(state.find_free_memory(9).unwrap_err().kind, ErrorKind::OutOfMemory);
    let d = state.alloc_memory_value(4).unwrap();
    assert_eq!(d, Value::new(0, 4));
    assert_eq!(state.free_blocks().to_vec(), vec![(4, 4), (24, 8)]);
    assert_eq!(state.memory_free(), 12);
    let _ = (b, c);
}

#[test]
fn released_blocks_are_sorted_and_merged() {
    let mut state = State::new(4, 32);
    let a = state.alloc_memory_value(8).unwrap();
    let b = state.alloc_memory_value(8).unwrap();
    let c = state.alloc_memory_value(8).unwrap();
    let d = state.alloc_memory_value(8).unwrap();
    assert_eq!(state.free_blocks().to_vec(), vec![]);
    state.dealloc_memory_value(&c).unwrap();
    state.dealloc_memory_value(&a).unwrap();
    assert_eq!(state.free_blocks().to_vec(), vec![(0, 8), (16, 8)]);
    state.dealloc_memory_value(&d).unwrap();
    assert_eq!(state.free_blocks().to_vec(), vec![(0, 8), (16, 16)]);
    state.dealloc_memory_value(&b).unwrap();
    assert_eq!(state.free_blocks().to_vec(), vec![(0, 32)]);
}

#[test]
fn allocate_and_free_restores_the_free_list() {
    let mut state = State::new(16, 64);
    let before = state.free_blocks().to_vec();
    let v = state.alloc_memory_value(16).unwrap();
    assert_eq!(v, Value::new(16, 16));
    state.dealloc_memory_value(&v).unwrap();
    assert_eq!(state.free_blocks().to_vec(), before);
    assert_eq!(before, vec![(0, 64)]);
}

#[test]
fn releasing_a_free_block_is_a_double_free() {
    let mut state = State::new(8, 16);
    let v = state.alloc_memory_value(8).unwrap();
    state.dealloc_memory_value(&v).unwrap();
    assert_eq!(state.dealloc_memory_value(&v).unwrap_err().kind, ErrorKind::DoubleFree);
    assert_eq!(
        state.dealloc_memory_value(&Value::new(12, 2)).unwrap_err().kind,
        ErrorKind::DoubleFree
    );
    assert_eq!(state.free_blocks().to_vec(), vec![(0, 16)]);
}

#[test]
fn releasing_outside_of_the_heap_is_out_of_bounds() {
    let mut state = State::new(8, 16);
    let _ = state.alloc_memory_value(16).unwrap();
    assert_eq!(
        state.dealloc_memory_value(&Value::new(4, 4)).unwrap_err().kind,
        ErrorKind::OutOfBounds
    );
    assert_eq!(
        state.dealloc_memory_value(&Value::new(20, 8)).unwrap_err().kind,
        ErrorKind::OutOfBounds
    );
    assert_eq!(state.free_blocks().to_vec(), vec![]);
}

#[test]
fn defragment_sorts_and_merges() {
    let mut state = State::new(0, 16);
    let a = state.alloc_memory_value(4).unwrap();
    let b = state.alloc_memory_value(4).unwrap();
    state.dealloc_memory_value(&b).unwrap();
    state.dealloc_memory_value(&a).unwrap();
    state.defragment_free_memory();
    assert_eq!(state.free_blocks().to_vec(), vec![(0, 16)]);
}

#[test]
fn value_default_is_empty() {
    assert_eq!(Value::default(), Value::new(0, 0));
}

fn in_order(blocks: &[(usize, usize)]) -> bool {
    blocks.iter().all(|b| b.1 > 0) && blocks.windows(2).all(|w| w[0].0 + w[0].1 < w[1].0)
}

#[test]
fn the_free_list_stays_in_order_while_blocks_come_and_go() {
    let mut state = State::new(16, 64);
    assert_eq!(state.free_blocks().to_vec(), vec![(0, 64)]);
    let sizes = [8usize, 4, 12, 4, 16, 8, 4];
    let mut live = vec![];
    for size in sizes.iter() {
        live.push(state.alloc_memory_value(*size).unwrap());
        assert!(in_order(state.free_blocks()));
    }
    assert_eq!(state.free_blocks().to_vec(), vec![(56, 8)]);
    // blocks in use share no byte and lie in the heap
    for (i, a) in live.iter().enumerate() {
        assert!(a.address >= 16 && a.address + a.size <= 80);
        for b in live.iter().skip(i + 1) {
            assert!(a.address + a.size <= b.address || b.address + b.size <= a.address);
        }
    }
    for k in [1usize, 3, 5, 0, 2, 6, 4].iter() {
        state.dealloc_memory_value(&live[*k]).unwrap();
        assert!(in_order(state.free_blocks()), "{:?}", state.free_blocks());
    }
    assert_eq!(state.free_blocks().to_vec(), vec![(0, 64)]);
    let a = state.alloc_memory_value(10).unwrap();
    let b = state.alloc_memory_value(10).unwrap();
    let c = state.alloc_memory_value(10).unwrap();
    state.dealloc_memory_value(&b).unwrap();
    assert_eq!(state.free_blocks().to_vec(), vec![(10, 10), (30, 34)]);
    let d = state.alloc_memory_value(4).unwrap();
    assert_eq!(d.address, 16 + 10);
    assert_eq!(state.free_blocks().to_vec(), vec![(14, 6), (30, 34)]);
    state.dealloc_memory_value(&a).unwrap();
    state.dealloc_memory_value(&c).unwrap();
    assert_eq!(state.free_blocks().to_vec(), vec![(0, 10), (14, 50)]);
    state.dealloc_memory_value(&d).unwrap();
    assert_eq!(state.free_blocks().to_vec(), vec![(0, 64)]);
}

#[test]
fn blocks_carry_their_size_for_the_host() {
    let word = std::mem::size_of::<usize>();
    let mut state = State::new(32, 64);
    let info = state_info(&state);
    assert_eq!(
        (info.stack_size, info.memory_size, info.all_size, info.stack_free, info.memory_free, info.all_free),
        (32, 64, 96, 32, 64, 96)
    );
    let a = alloc_memory(&mut state, 8).unwrap();
    assert_eq!(a, 32 + word);
    assert_eq!(state.load_data::<usize>(a - word).unwrap(), 8);
    assert_eq!(state.free_blocks().to_vec(), vec![(8 + word, 64 - 8 - word)]);
    let b = alloc_memory(&mut state, 4).unwrap();
    assert_eq!(b, a + 8 + word);
    assert_eq!(alloc_memory(&mut state, 64), None);
    assert_eq!(alloc_memory(&mut state, usize::MAX), None);
    let info = state_info(&state);
    assert_eq!(info.memory_free, 64 - 12 - 2 * word);
    assert_eq!(info.all_free, 32 + 64 - 12 - 2 * word);
    assert!(dealloc_memory(&mut state, a));
    assert!(!dealloc_memory(&mut state, a));
    assert!(dealloc_memory(&mut state, b));
    assert_eq!(state.free_blocks().to_vec(), vec![(0, 64)]);
    assert!(!dealloc_memory(&mut state, 0));
    assert!(!dealloc_memory(&mut state, word - 1));
    assert!(!dealloc_memory(&mut state, 97));
    assert!(!dealloc_memory(&mut state, 8));

    assert_eq!(alloc_stack(&mut state, 8), Some(0));
    assert_eq!(alloc_stack(&mut state, 8), Some(8));
    assert_eq!(alloc_stack(&mut state, 17), None);
    assert_eq!(state_info(&state).stack_free, 16);
    assert!(!pop_stack(&mut state, 17));
    assert!(pop_stack(&mut state, 4));
    assert_eq!(state.stack_pos(), 12);
    assert!(pop_stack(&mut state, 12));
    assert_eq!(state.stack_pos(), 0);
    assert!(pop_stack(&mut state, 0));
    assert!(!pop_stack(&mut state, 1));
}
