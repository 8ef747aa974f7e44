use rusty_danda::runtime::runtime_types::{
    CallStack, Context, DisplayStyle, Instructions, PointerTypes, Types,
};
use rusty_danda::test::test::test_init;

fn empty_context() -> Context {
    let frame = CallStack { reg_freeze: [Types::Null; 4], end: 0, code_ptr: 0 };
    Context {
        stack: vec![],
        call_stack: [frame; 100],
        stack_ptr: 0,
        registers: [Types::Null; 4],
        code: vec![],
        code_ptr: 0,
        heap: vec![],
        heap_registry: vec![],
    }
}

#[test]
fn render_type_names() {
    assert_eq!(Types::Bool(true).render(DisplayStyle::TypeName, ""), "Bool");
    assert_eq!(Types::Byte(1).render(DisplayStyle::TypeName, ""), "Byte");
    assert_eq!(Types::Char('c').render(DisplayStyle::TypeName, ""), "Char");
    assert_eq!(Types::CodePointer(1).render(DisplayStyle::TypeName, ""), "CodePointer");
    assert_eq!(Types::Float(0).render(DisplayStyle::TypeName, ""), "Float");
    assert_eq!(Types::Int(1).render(DisplayStyle::TypeName, ""), "Int");
    assert_eq!(Types::Null.render(DisplayStyle::TypeName, ""), "Null");
    assert_eq!(Types::Pointer(1, PointerTypes::Heap).render(DisplayStyle::TypeName, ""), "Pointer");
    assert_eq!(Types::Usize(1).render(DisplayStyle::TypeName, ""), "Usize");
}

#[test]
fn render_tagged() {
    assert_eq!(Types::Bool(false).render(DisplayStyle::Tagged, ""), "Bool<false>");
    assert_eq!(Types::Byte(200).render(DisplayStyle::Tagged, ""), "Byte<200>");
    assert_eq!(Types::Char('z').render(DisplayStyle::Tagged, ""), "Char<z>");
    assert_eq!(Types::CodePointer(42).render(DisplayStyle::Tagged, ""), "CodePointer<42>");
    assert_eq!(Types::Float(2.5f64.to_bits()).render(DisplayStyle::Tagged, "2.5"), "Float<2.5>");
    assert_eq!(Types::Int(-17).render(DisplayStyle::Tagged, ""), "Int<-17>");
    assert_eq!(Types::Null.render(DisplayStyle::Tagged, ""), "Null");
    assert_eq!(
        Types::Pointer(12, PointerTypes::HeapReg).render(DisplayStyle::Tagged, ""),
        "Pointer<12, HeapRaw>"
    );
    assert_eq!(Types::Usize(0).render(DisplayStyle::Tagged, ""), "Usize<0>");
}

#[test]
fn render_plain() {
    assert_eq!(Types::Bool(true).render(DisplayStyle::Plain, ""), "true");
    assert_eq!(Types::Byte(9).render(DisplayStyle::Plain, ""), "9");
    assert_eq!(Types::Char('q').render(DisplayStyle::Plain, ""), "q");
    assert_eq!(Types::Int(i32::MIN).render(DisplayStyle::Plain, ""), "-2147483648");
    assert_eq!(Types::Int(1234567).render(DisplayStyle::Plain, ""), "1234567");
    assert_eq!(Types::Null.render(DisplayStyle::Plain, ""), "Null");
    assert_eq!(Types::Pointer(5, PointerTypes::Stack).render(DisplayStyle::Plain, ""), "5");
    assert_eq!(Types::Usize(usize::MAX).render(DisplayStyle::Plain, ""), usize::MAX.to_string());
    assert_eq!(Types::Float(0).render(DisplayStyle::Plain, "0"), "0");
}

#[test]
fn labels() {
    assert_eq!(PointerTypes::Heap.label(), "Heap");
    assert_eq!(PointerTypes::HeapReg.label(), "HeapRaw");
    assert_eq!(PointerTypes::Stack.label(), "Stack");
    assert_eq!(Instructions::Add.label(), "Addition");
    assert_eq!(Instructions::Brnc(0, 0).label(), "Branch");
    assert_eq!(Instructions::Repp(0).label(), "ReapirPointer");
    assert_eq!(Instructions::Type(0, 0).label(), "TypeOf");
    assert_eq!(Instructions::RRet.label(), "RegisterReturn");
}

#[test]
fn samples_load() {
    let mut ctx = empty_context();
    assert!(test_init(Some(0), &mut ctx));
    assert_eq!(ctx.stack.len(), 1);
    assert!(matches!(ctx.code[..], [Instructions::End]));

    assert!(test_init(Some(1), &mut ctx));
    assert_eq!(ctx.stack.len(), 5);
    assert_eq!(ctx.code.len(), 12);
    assert!(matches!(ctx.code[7], Instructions::Brnc(1, 8)));

    assert!(test_init(Some(2), &mut ctx));
    assert_eq!(ctx.code.len(), 13);
    assert!(test_init(Some(3), &mut ctx));
    assert_eq!(ctx.code.len(), 27);
    assert!(test_init(Some(4), &mut ctx));
    assert_eq!(ctx.code.len(), 5);
}

#[test]
fn samples_default_and_unknown() {
    let mut ctx = empty_context();
    assert!(test_init(None, &mut ctx));
    assert!(matches!(ctx.code[..], [Instructions::Ptr(0), Instructions::Dalc(0), Instructions::Debug(0), Instructions::End]));
    assert!(!test_init(Some(99), &mut ctx));
    assert!(matches!(ctx.code[..], [Instructions::End]));
    assert!(matches!(ctx.stack[..], [Types::Int(0)]));
}
