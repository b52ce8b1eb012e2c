use pascal_compiler::definitions::Type;
use pascal_compiler::x86_64_compiler::{
    additive_code, additive_operands, assignment_allowed, builtin_code, check_builtin,
    compare_integers, comparison_code, element_assignment_allowed, element_load_code,
    element_store_code, evaluate_constant, evaluate_type, fold_integer, fold_not, for_code,
    frame_layout, frame_program, get_size, if_code, load_code, multiplicative_code,
    multiplicative_operands, negate_code, not_code, print_literal, print_value, read_variable,
    relational_jump, repeat_code, request_label, store_code, string_directive, string_index_code,
    while_code, ArgumentError,
};

#[test]
fn type_promotion() {
    assert_eq!(evaluate_type(Type::Integer, Type::Integer), Type::Integer);
    assert_eq!(evaluate_type(Type::Integer, Type::Real), Type::Real);
    assert_eq!(evaluate_type(Type::Real, Type::Integer), Type::Real);
    assert_eq!(evaluate_type(Type::Char, Type::Integer), Type::Char);
    assert_eq!(evaluate_type(Type::Boolean, Type::Integer), Type::Undefined);
    assert_eq!(evaluate_type(Type::Stryng, Type::Char), Type::Undefined);
}

#[test]
fn integer_folding() {
    assert_eq!(fold_integer("DIV", 7, 2), Some(3));
    assert_eq!(fold_integer("MOD", 7, 2), Some(1));
    assert_eq!(fold_integer("DIV", -7, 2), Some(-3));
    assert_eq!(fold_integer("MOD", -7, 2), Some(-1));
    assert_eq!(fold_integer("*", 6, 7), Some(42));
    assert_eq!(fold_integer("+", 1, 2), Some(3));
    assert_eq!(fold_integer("-", 1, 2), Some(-1));
    assert_eq!(fold_integer("AND", 12, 10), Some(8));
    assert_eq!(fold_integer("OR", 12, 10), Some(14));
    assert_eq!(fold_integer("DIV", 1, 0), None);
    assert_eq!(fold_integer("*", i64::MAX, 2), None);
    assert_eq!(fold_integer("/", 1, 2), None);
}

#[test]
fn identical_literals_share_a_label() {
    let mut next: u32 = 0;
    let mut rodata: Vec<(u32, String)> = Vec::new();
    let a = request_label(&mut next, &mut rodata, ".string \"hi\"");
    let b = request_label(&mut next, &mut rodata, ".double 1.5");
    let c = request_label(&mut next, &mut rodata, ".string \"hi\"");
    assert_eq!((a, b, c), (0, 1, 0));
    assert_eq!(next, 2);
    assert_eq!(rodata.len(), 2);
}

#[test]
fn constants_are_materialised() {
    let mut next: u32 = 4;
    let mut rodata: Vec<(u32, String)> = Vec::new();
    assert_eq!(evaluate_constant(&mut next, &mut rodata, "42".to_string(), &Type::Integer), "\tmovq\t$42, %rax\n");
    assert_eq!(evaluate_constant(&mut next, &mut rodata, "65".to_string(), &Type::Char), "\tmovb\t$65, %al\n");
    assert_eq!(evaluate_constant(&mut next, &mut rodata, "true".to_string(), &Type::Boolean), "\tmovb\t$1, %al\n");
    assert_eq!(evaluate_constant(&mut next, &mut rodata, "false".to_string(), &Type::Boolean), "\tmovb\t$0, %al\n");
    assert_eq!(evaluate_constant(&mut next, &mut rodata, "6.28".to_string(), &Type::Real), "\tmovsd\tl4(%rip), %xmm0\n");
    assert_eq!(evaluate_constant(&mut next, &mut rodata, "hi".to_string(), &Type::Stryng), "\tleaq\tl5(%rip), %rax\n");
    assert_eq!(evaluate_constant(&mut next, &mut rodata, "6.28".to_string(), &Type::Real), "\tmovsd\tl4(%rip), %xmm0\n");
    assert_eq!(rodata, vec![(4, ".double 6.28".to_string()), (5, ".string \"hi\"".to_string())]);
    assert_eq!(next, 6);
}

#[test]
fn label_numbers_have_several_digits() {
    let mut next: u32 = 1234;
    let mut rodata: Vec<(u32, String)> = Vec::new();
    assert_eq!(evaluate_constant(&mut next, &mut rodata, "x".to_string(), &Type::Stryng), "\tleaq\tl1234(%rip), %rax\n");
}

#[test]
fn sizes() {
    assert_eq!(get_size(&Type::Integer), Some(8));
    assert_eq!(get_size(&Type::Boolean), Some(1));
    assert_eq!(get_size(&Type::Array(Box::new(Type::Integer), 1, 3)), Some(24));
    assert_eq!(get_size(&Type::Array(Box::new(Type::Char), 0, 9)), Some(10));
    assert_eq!(get_size(&Type::Text), None);
    assert_eq!(get_size(&Type::Array(Box::new(Type::Integer), 5, 1)), None);
}

#[test]
fn frame_is_aligned_to_sixteen() {
    let (offsets, frame) = frame_layout(&vec![Type::Integer, Type::Integer]).unwrap();
    assert_eq!(offsets, vec![8, 16]);
    assert_eq!(frame, 16);
    let (offsets, frame) =
        frame_layout(&vec![Type::Array(Box::new(Type::Integer), 1, 3), Type::Integer, Type::Char]).unwrap();
    assert_eq!(offsets, vec![25, 32, 33]);
    assert_eq!(frame, 48);
    assert_eq!(frame % 16, 0);
    let (offsets, frame) = frame_layout(&vec![]).unwrap();
    assert!(offsets.is_empty());
    assert_eq!(frame, 0);
    assert!(frame_layout(&vec![Type::Text]).is_none());
}

#[test]
fn char_into_integer_is_mismatched() {
    assert!(!assignment_allowed(&Type::Integer, &Type::Char));
    assert!(assignment_allowed(&Type::Real, &Type::Integer));
    assert!(assignment_allowed(&Type::Stryng, &Type::Char));
    assert!(!assignment_allowed(&Type::Integer, &Type::Real));
    assert!(element_assignment_allowed(&Type::Real, &Type::Integer));
    assert!(!element_assignment_allowed(&Type::Integer, &Type::Boolean));
}

#[test]
fn sqrt_of_string_is_rejected() {
    let (t, e) = check_builtin("SQRT", &Type::Stryng).unwrap();
    assert_eq!(t, Type::Real);
    assert_eq!(e, Some(ArgumentError::ExpectedNumber));
    assert_eq!(e.unwrap().text(), "Expected integer or real as argument");
}

#[test]
fn builtin_rules() {
    assert_eq!(check_builtin("ORD", &Type::Char), Some((Type::Integer, None)));
    assert_eq!(check_builtin("ORD", &Type::Integer), Some((Type::Integer, Some(ArgumentError::ExpectedChar))));
    assert_eq!(check_builtin("CHR", &Type::Integer), Some((Type::Char, None)));
    assert_eq!(check_builtin("CHR", &Type::Real), Some((Type::Char, Some(ArgumentError::ExpectedInteger))));
    assert_eq!(check_builtin("SQR", &Type::Real), Some((Type::Real, None)));
    assert_eq!(check_builtin("ABS", &Type::Boolean), Some((Type::Undefined, Some(ArgumentError::ExpectedNumber))));
    assert_eq!(check_builtin("WRITELN", &Type::Integer), None);
}

#[test]
fn program_is_framed() {
    let text = frame_program("\tmovq\t$1, %rax\n", &vec![]);
    assert_eq!(
        text,
        ".text\n.globl main\nmain:\n\tpushq\t%rbp\n\tmovq\t%rsp, %rbp\n\tmovq\t$1, %rax\n\tmovl\t$0, %eax\n\tleave\n\tret\n\n"
    );
}

#[test]
fn program_with_data_is_framed() {
    let rodata = vec![(0, ".string \"%ld\\n\"".to_string()), (12, ".double 2.5".to_string())];
    let text = frame_program("\tmovb\teof(%rip), %al\n", &rodata);
    assert!(text.starts_with(
        ".section .data\neof:\n\t.int 0\n.section .rodata\nl0:\n\t.string \"%ld\\n\"\nl12:\n\t.double 2.5\n.text\n"
    ));
    assert!(text.ends_with("\tmovb\teof(%rip), %al\n\tmovl\t$0, %eax\n\tleave\n\tret\n\n"));
}

#[test]
fn constant_comparisons() {
    assert_eq!(compare_integers("<", 1, 2), Some(true));
    assert_eq!(compare_integers("<=", 2, 2), Some(true));
    assert_eq!(compare_integers("=", 2, 3), Some(false));
    assert_eq!(compare_integers("<>", 2, 3), Some(true));
    assert_eq!(compare_integers(">", -1, -2), Some(true));
    assert_eq!(compare_integers(">=", -3, -2), Some(false));
    assert_eq!(compare_integers("IN", 1, 2), None);
}

#[test]
fn relational_jumps() {
    assert_eq!(relational_jump("<", false, 3), Some("\tjge\tl3\n".to_string()));
    assert_eq!(relational_jump("<", true, 3), Some("\tjae\tl3\n".to_string()));
    assert_eq!(relational_jump(">", false, 10), Some("\tjle\tl10\n".to_string()));
    assert_eq!(relational_jump(">", true, 10), Some("\tjbe\tl10\n".to_string()));
    assert_eq!(relational_jump("=", true, 0), Some("\tjne\tl0\n".to_string()));
    assert_eq!(relational_jump("IN", false, 7), Some("\tjmp\tl7 # Error: IN not implemented \n".to_string()));
    assert_eq!(relational_jump("+", false, 7), None);
}

#[test]
fn string_directives() {
    assert_eq!(string_directive("%ld", true), ".string \"%ld\\n\"");
    assert_eq!(string_directive("Hello, world!", false), ".string \"Hello, world!\"");
}

#[test]
fn operator_instructions() {
    assert_eq!(multiplicative_code("*", &Type::Integer), Some(("\timulq\t%rdx\n", Type::Integer, false)));
    assert_eq!(
        multiplicative_code("/", &Type::Integer),
        Some(("\tcvtsi2sd %rax, %xmm0\n\tcvtsi2sd %rdx, %xmm1\n\tdivsd\t%xmm1, %xmm0\n", Type::Real, true))
    );
    assert_eq!(multiplicative_code("DIV", &Type::Real), Some(("\tdivsd\t%xmm1, %xmm0\n", Type::Real, true)));
    assert_eq!(multiplicative_code("MOD", &Type::Real), Some(("\tcall\tfmod\n", Type::Real, false)));
    assert_eq!(multiplicative_code("AND", &Type::Char), None);
    assert_eq!(multiplicative_code("*", &Type::Undefined), Some(("", Type::Undefined, false)));
    assert_eq!(additive_code("+", &Type::Char), Some("\taddb\t%dl, %al\n"));
    assert_eq!(additive_code("OR", &Type::Boolean), Some("\torb\t%dl, %al\n"));
    assert_eq!(additive_code("-", &Type::Stryng), None);
}

#[test]
fn variables_are_loaded_into_their_register() {
    assert_eq!(load_code(&Type::Integer, "-8(%rbp)"), Some("\tmovq\t-8(%rbp), %rax\n".to_string()));
    assert_eq!(load_code(&Type::Boolean, "eof(%rip)"), Some("\tmovb\teof(%rip), %al\n".to_string()));
    assert_eq!(load_code(&Type::Real, "-16(%rbp)"), Some("\tmovsd\t-16(%rbp), %xmm0\n".to_string()));
    assert_eq!(load_code(&Type::Text, "-8(%rbp)"), None);
}

#[test]
fn assignments_are_stored_with_coercions() {
    assert_eq!(store_code(&Type::Integer, &Type::Integer, 8), Some("\tmovq\t%rax, -8(%rbp)\n".to_string()));
    assert_eq!(
        store_code(&Type::Real, &Type::Integer, 16),
        Some("\tcvtsi2sd %rax, %xmm0\n\tmovq\t%xmm0, -16(%rbp)\n".to_string())
    );
    assert_eq!(
        store_code(&Type::Stryng, &Type::Char, 24),
        Some("\tmovb\t%al, -24(%rbp)\n\tmovb\t$0, -25(%rbp)\n".to_string())
    );
    assert_eq!(store_code(&Type::Char, &Type::Char, -3), Some("\tmovb\t%al, --3(%rbp)\n".to_string()));
    assert_eq!(store_code(&Type::Real, &Type::Boolean, 8), None);
}

#[test]
fn if_without_else() {
    assert_eq!(if_code("C", "T", None, 3, 4), "C\ttestb\t%al, %al\n\tje\tl3\nTl3:\n");
}

#[test]
fn if_with_else() {
    assert_eq!(
        if_code("C", "T", Some("E"), 3, 5),
        "C\ttestb\t%al, %al\n\tje\tl3\nT\tjmp\tl5\nl3:\nEl5:\n"
    );
}

#[test]
fn while_loop_template() {
    assert_eq!(while_code("C", "B", 0, 1), "l0:\nC\ttestb\t%al, %al\n\tje\tl1\nB\tjmp\tl0\nl1:\n");
}

#[test]
fn repeat_loop_template() {
    assert_eq!(repeat_code("B", "C", 7), "l7:\nBC\ttestb\t%al, %al\n\tje\tl7\n");
}

#[test]
fn for_loop_template() {
    assert_eq!(
        for_code("S", "E", "B", 8, true, 1, 2),
        "S\tmovq\t%rax, -8(%rbp)\nE\tincq\t%rax\n\tpushq\t$0\n\tpushq\t%rax\nl1:\n\tmovq\t(%rsp), %rax\n\tmovq\t-8(%rbp), %rdx\n\tcmpq\t%rax, %rdx\n\tje\tl2\nB\tincq\t-8(%rbp)\n\tjmp\tl1\nl2:\n\taddq\t$16, %rsp\n"
    );
    let down = for_code("", "", "", 16, false, 0, 1);
    assert!(down.contains("\tdecq\t%rax\n"));
    assert!(down.contains("\tdecq\t-16(%rbp)\n"));
}

#[test]
fn oversized_array_has_no_size() {
    assert_eq!(get_size(&Type::Array(Box::new(Type::Integer), i64::MIN, i64::MAX)), None);
    assert!(frame_layout(&vec![Type::Array(Box::new(Type::Char), 0, i64::MAX - 1)]).is_none());
}

#[test]
fn reads_by_type() {
    let mut next: u32 = 0;
    let mut rodata: Vec<(u32, String)> = Vec::new();
    assert_eq!(
        read_variable(&mut next, &mut rodata, &Type::Integer, 8),
        Some("\tleaq\t-8(%rbp), %rsi\n\tleaq\tl0(%rip), %rdi\n\tmovq\t$0, %rax\n\tcall\tscanf\n".to_string())
    );
    assert_eq!(rodata, vec![(0, ".string \"%ld\"".to_string())]);
    let c = read_variable(&mut next, &mut rodata, &Type::Char, 16).unwrap();
    assert!(c.starts_with("l1:\n\tcall\tgetchar\n\tcmpl\t$-1, %eax\n\tjne\tl2\n\tmovl\t$1, eof(%rip)\nl2:\n"));
    assert!(c.ends_with("\tje\tl1\n\tmovb\t%al, -16(%rbp)\n"));
    assert_eq!(next, 3);
    let s = read_variable(&mut next, &mut rodata, &Type::Stryng, 24).unwrap();
    assert!(s.starts_with("\tmovq\t$256, %rdi\n\tmovq\t$1, %rsi\n\tcall\tcalloc\n\tmovq\t%rax, -24(%rbp)\n"));
    assert_eq!(rodata[1], (3, ".string \" %[^\\n]s\"".to_string()));
    assert_eq!(read_variable(&mut next, &mut rodata, &Type::Boolean, 8), None);
}

#[test]
fn prints_by_type() {
    let mut next: u32 = 0;
    let mut rodata: Vec<(u32, String)> = Vec::new();
    assert_eq!(
        print_value(&mut next, &mut rodata, &Type::Integer, true),
        Some("\tmovq\t%rax, %rsi\n\tleaq\tl0(%rip), %rdi\n\tmovq\t$0, %rax\n\tcall\tprintf\n".to_string())
    );
    assert_eq!(
        print_value(&mut next, &mut rodata, &Type::Real, false),
        Some("\tleaq\tl1(%rip), %rdi\n\tmovq\t$1, %rax\n\tcall\tprintf\n".to_string())
    );
    assert_eq!(
        print_value(&mut next, &mut rodata, &Type::Boolean, true),
        Some("\tleaq\tl2(%rip), %rdi\n\ttestb\t%al, %al\n\tje\tl4\n\tleaq\tl3(%rip), %rdi\nl4:\n\tmovq\t$0, %rax\n\tcall\tprintf\n".to_string())
    );
    assert_eq!(next, 5);
    assert_eq!(rodata[2], (2, ".string \"FALSE\\n\"".to_string()));
    assert_eq!(rodata[3], (3, ".string \"TRUE\\n\"".to_string()));
    assert_eq!(print_value(&mut next, &mut rodata, &Type::Text, false), None);
}

#[test]
fn writeln_literals_share_labels() {
    let mut next: u32 = 0;
    let mut rodata: Vec<(u32, String)> = Vec::new();
    let a = print_literal(&mut next, &mut rodata, "Hello, world!", true);
    let b = print_literal(&mut next, &mut rodata, "Hello, world!", true);
    let c = print_literal(&mut next, &mut rodata, "", true);
    assert_eq!(a, "\tleaq\tl0(%rip), %rdi\n\tmovq\t$0, %rax\n\tcall\tprintf\n");
    assert_eq!(a, b);
    assert_eq!(c, "\tleaq\tl1(%rip), %rdi\n\tmovq\t$0, %rax\n\tcall\tprintf\n");
    assert_eq!(rodata, vec![(0, ".string \"Hello, world!\\n\"".to_string()), (1, ".string \"\\n\"".to_string())]);
}

#[test]
fn array_elements() {
    assert_eq!(
        element_load_code(&Type::Integer, 9),
        Some("\tmovq\t%rax, %rdx\n\tmovq\t-9(%rbp, %rdx, 8), %rax\n".to_string())
    );
    assert_eq!(element_load_code(&Type::Real, 9), Some("\tmovsd\t-9(%rbp, %rax, 8), %xmm0\n".to_string()));
    assert_eq!(
        element_load_code(&Type::Char, 3),
        Some("\tmovq\t%rax, %rdx\n\tmovb\t-3(%rbp, %rdx, 1), %al\n".to_string())
    );
    assert_eq!(element_load_code(&Type::Text, 3), None);
    assert_eq!(
        element_store_code(&Type::Real, &Type::Integer, 9),
        Some("\tcvtsi2sd %rax, %xmm0\n\tmovq\t%xmm0, -9(%rbp, %rdx, 8)\n".to_string())
    );
    assert_eq!(element_store_code(&Type::Boolean, &Type::Boolean, 2), Some("\tmovb\t%al, -2(%rbp, %rdx, 1)\n".to_string()));
    assert_eq!(element_store_code(&Type::Real, &Type::Char, 9), None);
    assert_eq!(string_index_code(8), "\taddq\t-8(%rbp), %rax\n\tdecq\t%rax\n\tmovzbl\t(%rax), %eax\n");
}

#[test]
fn unary_operators() {
    assert_eq!(fold_not(5), -6);
    assert_eq!(fold_not(0), -1);
    assert_eq!(not_code(&Type::Boolean), Some("\tsubb\t$1, %al\n\tnegb\t%al\n"));
    assert_eq!(not_code(&Type::Integer), Some("\tnotq\t%rax\n"));
    assert_eq!(not_code(&Type::Real), None);
    assert_eq!(negate_code(&Type::Integer), Some("\tnegq\t%rax\n"));
    assert_eq!(negate_code(&Type::Undefined), Some(""));
    assert_eq!(negate_code(&Type::Char), None);
}

#[test]
fn builtin_runtime_code() {
    assert_eq!(builtin_code("ORD", &Type::Char), Some("\tcbtw\n\tcwtl\n\tcltq\n"));
    assert_eq!(builtin_code("SQRT", &Type::Integer), Some("\tcvtsi2sd %rax, %xmm0\n\tcall\tsqrt\n"));
    assert_eq!(builtin_code("SQR", &Type::Real), Some("\tmulsd\t%xmm0, %xmm0\n"));
    assert_eq!(builtin_code("ABS", &Type::Integer), Some("\tmovq\t%rax, %rdi\n\tcall\tabs\n"));
    assert_eq!(builtin_code("ABS", &Type::Boolean), None);
}

#[test]
fn operands_of_binary_operators() {
    assert_eq!(
        multiplicative_operands("A", "B", &Type::Integer, &Type::Integer, &Type::Integer),
        "B\tpushq\t%rax\nA\tpopq\t%rdx\n"
    );
    assert_eq!(
        multiplicative_operands("A", "B", &Type::Integer, &Type::Real, &Type::Real),
        "B\tsubq\t$8, %rsp\n\tmovsd\t%xmm0, (%rsp)\nA\tcvtsi2sd %rax, %xmm0\n\tmovsd\t(%rsp), %xmm1\n\taddq\t$8, %rsp\n"
    );
    assert_eq!(
        additive_operands("A", "B", &Type::Real, &Type::Integer, &Type::Real),
        "BA\tcvtsi2sd %rax, %xmm1\n"
    );
    assert_eq!(
        comparison_code("A", "B", &Type::Integer, &Type::Integer, &Type::Integer),
        "A\tpushq\t%rax\nB\tpopq\t%rdx\n\tmovq\t%rax, %rcx\n\txorb\t%al, %al\n\tcmpq\t%rcx, %rdx\n"
    );
    assert_eq!(
        comparison_code("A", "B", &Type::Real, &Type::Integer, &Type::Real),
        "A\tsubq\t$8, %rsp\n\tmovsd\t%xmm0, (%rsp)\nB\tmovsd\t(%rsp), %xmm1\n\taddq\t$8, %rsp\n\tcvtsi2sd %rax, %xmm0\n\txorb\t%al, %al\n\tucomisd\t%xmm0, %xmm1\n"
    );
}
