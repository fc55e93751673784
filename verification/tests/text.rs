use kaiju::cstring::{load_cstring, store_cstring};
use kaiju::error::ErrorKind;
use kaiju::image::VmAssembly;
use kaiju::program::{magic_module, magic_program};
use kaiju::state::{State, Value};
use kaiju::vm::Vm;

fn be(out: &mut Vec<u8>, v: u64) {
    out.extend_from_slice(&v.to_be_bytes());
}

fn empty_image() -> Vec<u8> {
    let mut out = vec![0x4b, 0x4a, 0x50, 1];
    for _ in 0..5 {
        be(&mut out, 0);
        be(&mut out, 0);
    }
    be(&mut out, 0);
    for _ in 0..2 {
        be(&mut out, 0);
        be(&mut out, 0);
    }
    out
}

const WORD: usize = std::mem::size_of::<usize>();

#[test]
fn texts_are_stored_and_loaded() {
    let image = VmAssembly::new(empty_image()).unwrap();
    assert_eq!(image.functions().len(), 0);
    let mut vm = Vm::new(image, 64, 64).unwrap();
    store_cstring("héllo", 64, &mut vm).unwrap();
    assert_eq!(vm.state().stack_pos(), 7);
    assert_eq!(vm.state().load_data::<usize>(64).unwrap(), 0);
    assert_eq!(vm.state().load_bytes(0, 7).unwrap(), vec![b'h', 0xc3, 0xa9, b'l', b'l', b'o', 0]);
    assert_eq!(load_cstring(64, &vm).unwrap(), "héllo");
    store_cstring("", 72, &mut vm).unwrap();
    assert_eq!(vm.state().load_data::<usize>(72).unwrap(), 7);
    assert_eq!(load_cstring(72, &vm).unwrap(), "");
}

#[test]
fn texts_are_checked() {
    let mut vm = Vm::new(VmAssembly::new(empty_image()).unwrap(), 8, 16).unwrap();
    assert_eq!(store_cstring("a\0b", 8, &mut vm).unwrap_err().kind, ErrorKind::TypeError);
    assert_eq!(store_cstring("too long a text", 8, &mut vm).unwrap_err().kind, ErrorKind::StackOverflow);
    assert_eq!(vm.state().stack_pos(), 0);
    assert_eq!(store_cstring("ab", 24 - WORD + 1, &mut vm).unwrap_err().kind, ErrorKind::OutOfBounds);
    assert_eq!(vm.state().stack_pos(), 3);
    assert_eq!(load_cstring(24 - WORD + 1, &vm).unwrap_err().kind, ErrorKind::OutOfBounds);
    vm.state_mut().store_bytes(0, &[0xff, 0xfe, 0]).unwrap();
    vm.state_mut().store_data(8, &0usize).unwrap();
    assert_eq!(load_cstring(8, &vm).unwrap_err().kind, ErrorKind::TypeError);
    vm.state_mut().store_data(8, &1000usize).unwrap();
    assert_eq!(load_cstring(8, &vm).unwrap(), "");
}

#[test]
fn memory_can_be_written_through_its_views() {
    let mut state = State::new(4, 8);
    state.map_all_mut()[11] = 9;
    state.map_stack_mut()[1] = 7;
    state.map_memory_mut()[0] = 8;
    assert_eq!(state.map_stack_mut().len(), 4);
    assert_eq!(state.map_memory_mut().len(), 8);
    assert_eq!(state.map_all().to_vec(), vec![0, 7, 0, 0, 8, 0, 0, 0, 0, 0, 0, 9]);
    {
        let window = state.map_mut(Value::new(3, 3)).unwrap();
        assert_eq!(window.to_vec(), vec![0, 8, 0]);
        window[2] = 5;
    }
    assert_eq!(state.load_bytes(3, 3).unwrap(), vec![0, 8, 5]);
    assert_eq!(state.map_mut(Value::new(10, 3)).unwrap_err().kind, ErrorKind::OutOfBounds);
    assert_eq!(state.map_mut(Value::new(12, 0)).unwrap().len(), 0);
}

#[test]
fn magic_values() {
    assert_eq!(magic_program(), [0x4b, 0x4a, 0x50, 1]);
    assert_eq!(magic_module(), [0x4b, 0x4a, 0x4d, 1]);
}
