use laminax_kpl::errors::{ErrorKind, RuntimeKind};
use laminax_kpl::interpreter::copy_error;
use laminax_kpl::KyaroError;

#[test]
fn errors_are_shown_with_kind_and_place() {
    let lexer = KyaroError::lexer_error("bad".to_string(), 3, 14);
    assert_eq!(lexer.to_string(), "Lexer error at line 3, column 14: bad");
    assert_eq!(lexer.kind(), ErrorKind::Lexer);
    let parser = KyaroError::parser_error("worse".to_string(), 120, 7);
    assert_eq!(parser.to_string(), "Parser error at line 120, column 7: worse");
    assert_eq!((parser.line(), parser.column()), (120, 7));
    let runtime = KyaroError::runtime_error("worst".to_string(), 0, 0);
    assert_eq!(runtime.to_string(), "Runtime error at line 0, column 0: worst");
    assert_eq!(runtime.kind(), ErrorKind::Runtime(RuntimeKind::Other));
    let generic = KyaroError::generic_error("plain".to_string());
    assert_eq!(generic.to_string(), "Error: plain");
    assert_eq!(generic.kind(), ErrorKind::Generic);
    assert_eq!((generic.line(), generic.column()), (0, 0));
    assert_eq!(generic.message(), "plain");
}

#[test]
fn every_runtime_kind_is_a_runtime_error() {
    for kind in [
        RuntimeKind::Other,
        RuntimeKind::TypeError,
        RuntimeKind::ArityError,
        RuntimeKind::UnboundName,
        RuntimeKind::DivisionByZero,
        RuntimeKind::DomainError,
        RuntimeKind::IndexError,
        RuntimeKind::NotImplemented,
    ] {
        let e = KyaroError::runtime(kind, "m".to_string(), usize::MAX, 10);
        assert_eq!(e.kind(), ErrorKind::Runtime(kind));
        assert_eq!(
            e.to_string(),
            format!("Runtime error at line {}, column 10: m", usize::MAX)
        );
        let copy = copy_error(&e);
        assert_eq!(copy.to_string(), e.to_string());
        assert_eq!(copy.kind(), e.kind());
    }
}
