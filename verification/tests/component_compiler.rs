use cretonne::component::compiler::{AlwaysTrapInfo, FunctionInfo};

#[test]
fn always_trap_info_describes_its_function() {
    let info = FunctionInfo { start: 16, length: 8 };
    let trap = AlwaysTrapInfo { info, trap_offset: 4 };
    assert_eq!(trap.info.start, 16);
    assert_eq!(trap.info.length, 8);
    assert_eq!(trap.trap_offset, 4);
    assert_eq!(trap, AlwaysTrapInfo { info: FunctionInfo { start: 16, length: 8 }, trap_offset: 4 });
}
