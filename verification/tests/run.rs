use rust_bf::Machine;
use rust_bf::Program;
use rust_bf::RuntimeError;

/// Drives a machine until the program completes or fails, handing back the
/// output either way.
fn run_program(source: &str, input: &[u8]) -> Result<String, (RuntimeError, String)> {
    let program = Program::parse(source).unwrap();
    let mut machine = Machine::new(&program, input);
    loop {
        match machine.run_steps(1 << 20) {
            Ok(true) => return Ok(machine.output().clone()),
            Ok(false) => (),
            Err(e) => return Err((e, machine.output().clone())),
        }
    }
}

#[test]
fn hello_world() {
    let out = run_program(
        "++++++++[>++++[>++>+++>+++>+<<<<-]>+>+>->>+[<]<-]>>.>---.+++++++..+++.>>.<-.<.+++.------.--------.>>+.>++.",
        "".as_bytes(),
    )
    .unwrap();
    assert_eq!(out.as_bytes(), "Hello World!\n".as_bytes());
}

#[test]
fn cat() {
    let out = run_program(",[.,]", "Hello World!".as_bytes()).unwrap();
    assert_eq!(out.as_bytes(), "Hello World!".as_bytes());
}

#[test]
fn pointer_underflow_fails() {
    match run_program("<", b"") {
        Err((e, out)) => {
            assert_eq!(e, RuntimeError::PointerUnderflow);
            assert_eq!(out, "");
        }
        Ok(_) => panic!("moving below index zero must fail"),
    }
}

#[test]
fn pointer_underflow_stops_the_run() {
    match run_program(".>><<<.", b"") {
        Err((e, out)) => {
            assert_eq!(e, RuntimeError::PointerUnderflow);
            assert_eq!(out, "\u{0}");
        }
        Ok(_) => panic!("moving below index zero must fail"),
    }
}

#[test]
fn reading_past_end_of_input_stores_zero() {
    let out = run_program("+,.", b"").unwrap();
    assert_eq!(out, "\u{0}");
}

#[test]
fn input_then_end_of_input() {
    let out = run_program(",.,.", b"A").unwrap();
    assert_eq!(out, "A\u{0}");
}

#[test]
fn running_twice_gives_identical_output() {
    let program = Program::parse(",[.,]+++.").unwrap();
    let input = b"abc";
    let mut first = Machine::new(&program, input);
    while !first.halted() {
        first.step().unwrap();
    }
    let mut second = Machine::new(&program, input);
    while !second.halted() {
        second.step().unwrap();
    }
    assert_eq!(first.output(), second.output());
    assert_eq!(first.output(), "abc\u{3}");
}

#[test]
fn tape_grows_past_initial_length() {
    let source: String = ">".repeat(30005) + "+.";
    let out = run_program(&source, b"").unwrap();
    assert_eq!(out, "\u{1}");
}

#[test]
fn output_maps_cells_to_code_points() {
    let source: String = "+".repeat(200) + ".";
    let out = run_program(&source, b"").unwrap();
    assert_eq!(out, "\u{c8}");
    assert_eq!(out.as_bytes(), [0xc3, 0x88]);
}

#[test]
fn cell_arithmetic_wraps() {
    let source: String = "+".repeat(255) + "+.";
    let out = run_program(&source, b"").unwrap();
    assert_eq!(out, "\u{0}");
}

#[test]
fn empty_program_emits_nothing() {
    let out = run_program("no commands here", b"xyz").unwrap();
    assert_eq!(out, "");
}

#[test]
fn loop_skipped_when_cell_is_zero() {
    let out = run_program("[+++.].", b"").unwrap();
    assert_eq!(out, "\u{0}");
}
