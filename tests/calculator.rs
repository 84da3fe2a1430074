use relay::parser::{evaluate_line, line_operation, parse_operation, parse_val};
use relay::rpn::{rand_below, Elt, Error, Op, Stack};

#[test]
fn test_pop_empty1() {
    let mut s = Stack::new();

    let res = s.pop();
    assert!(res.is_err());
    if let Err(Error::Underflow) = res {
    } else {
        assert!(false);
    }
}

#[test]
fn test_pop_empty2() {
    let mut s = Stack::new();
    s.push(Elt::Int(0)).unwrap();

    let res = s.pop();
    assert!(res.is_ok());

    let res = s.pop();
    assert!(res.is_err());
    if let Err(Error::Underflow) = res {
    } else {
        assert!(false);
    }
}

#[test]
fn test_eval_add1() {
    let mut s = Stack::new();
    s.push(Elt::Int(1)).unwrap();
    s.push(Elt::Int(1)).unwrap();

    assert!(s.eval(Op::Add).is_ok());
    assert_eq!(s.pop().unwrap(), Elt::Int(2));
}

#[test]
fn test_eval_add2() {
    let mut s = Stack::new();
    s.push(Elt::Int(1)).unwrap();
    s.push(Elt::Bool(false)).unwrap();

    let res = s.eval(Op::Add);
    assert!(res.is_err());
    if let Err(Error::Type) = res {
    } else {
        assert!(false);
    }
}

#[test]
fn test_eval_add3() {
    let mut s = Stack::new();
    s.push(Elt::Bool(true)).unwrap();
    s.push(Elt::Bool(false)).unwrap();

    let res = s.eval(Op::Add);
    assert!(res.is_err());
    if let Err(Error::Type) = res {
    } else {
        assert!(false);
    }
}

#[test]
fn test_eval_eq1() {
    let mut s = Stack::new();
    s.push(Elt::Int(1)).unwrap();
    s.push(Elt::Int(1)).unwrap();

    assert!(s.eval(Op::Eq).is_ok());
    assert_eq!(s.pop().unwrap(), Elt::Bool(true));
}

#[test]
fn test_eval_eq2() {
    let mut s = Stack::new();
    s.push(Elt::Int(1)).unwrap();
    s.push(Elt::Bool(false)).unwrap();

    let res = s.eval(Op::Eq);
    assert!(res.is_err());
    if let Err(Error::Type) = res {
    } else {
        assert!(false);
    }
}

#[test]
fn test_eval_neg1() {
    let mut s = Stack::new();
    s.push(Elt::Int(1)).unwrap();
    assert!(s.eval(Op::Neg).is_ok());
    assert_eq!(s.pop().unwrap(), Elt::Int(-1));
}

#[test]
fn test_eval_neg2() {
    let mut s = Stack::new();
    s.push(Elt::Bool(false)).unwrap();
    assert!(s.eval(Op::Neg).is_ok());
    assert_eq!(s.pop().unwrap(), Elt::Bool(true));
}

#[test]
fn test_eval_swap1() {
    let mut s = Stack::new();
    s.push(Elt::Int(1)).unwrap();
    s.push(Elt::Bool(false)).unwrap();

    assert!(s.eval(Op::Swap).is_ok());
    assert_eq!(s.pop().unwrap(), Elt::Int(1));
    assert_eq!(s.pop().unwrap(), Elt::Bool(false));

    let res = s.pop();
    assert!(res.is_err());
    if let Err(Error::Underflow) = res {
    } else {
        assert!(false);
    }
}

#[test]
fn test_eval_swap2() {
    let mut s = Stack::new();
    s.push(Elt::Bool(false)).unwrap();

    let res = s.eval(Op::Swap);
    assert!(res.is_err());
    if let Err(Error::Underflow) = res {
    } else {
        assert!(false);
    }
}

#[test]
fn test_eval_rand1() {
    let mut s = Stack::new();
    let i = 20;
    s.push(Elt::Int(i)).unwrap();

    assert!(s.eval(Op::Rand).is_ok());

    let rand_val = s.pop().unwrap();
    assert!(rand_val >= Elt::Int(0));
    assert!(rand_val < Elt::Int(i));
}

#[test]
fn test_eval_rand2() {
    let mut s = Stack::new();
    s.push(Elt::Bool(false)).unwrap();

    let res = s.eval(Op::Rand);
    assert!(res.is_err());
    if let Err(Error::Type) = res {
    } else {
        assert!(false);
    }
}

#[test]
fn test_eval_quit() {
    let mut s = Stack::new();

    let res = s.eval(Op::Quit);
    assert!(res.is_err());
    if let Err(Error::Quit) = res {
    } else {
        assert!(false);
    }
}

#[test]
fn test_evaluate_line_bool() {
    let mut stack = Stack::new();
    let s = "true".to_string();
    assert!(evaluate_line(&mut stack, &s).is_ok());
    assert_eq!(stack.pop().unwrap(), Elt::Bool(true));
    let s = "false".to_string();
    assert!(evaluate_line(&mut stack, &s).is_ok());
    assert_eq!(stack.pop().unwrap(), Elt::Bool(false));
}

#[test]
fn test_evaluate_line_int() {
    let mut stack = Stack::new();
    let s = "12".to_string();
    assert!(evaluate_line(&mut stack, &s).is_ok());
    assert_eq!(stack.pop().unwrap(), Elt::Int(12));
}

#[test]
fn test_evaluate_line_plus() {
    let mut stack = Stack::new();
    let s = "12".to_string();
    assert!(evaluate_line(&mut stack, &s).is_ok());
    let s = "13".to_string();
    assert!(evaluate_line(&mut stack, &s).is_ok());
    let s = "+".to_string();
    assert!(evaluate_line(&mut stack, &s).is_ok());
    assert_eq!(stack.pop().unwrap(), Elt::Int(25));
}

#[test]
fn test_evaluate_line_neg() {
    let mut stack = Stack::new();
    let s = "false".to_string();
    assert!(evaluate_line(&mut stack, &s).is_ok());
    let s = "~".to_string();
    assert!(evaluate_line(&mut stack, &s).is_ok());
    assert_eq!(stack.pop().unwrap(), Elt::Bool(true));
}

#[test]
fn test_evaluate_line_swap() {
    let mut stack = Stack::new();
    let s = "false".to_string();
    assert!(evaluate_line(&mut stack, &s).is_ok());
    let s = "15".to_string();
    assert!(evaluate_line(&mut stack, &s).is_ok());
    let s = "<->".to_string();
    assert!(evaluate_line(&mut stack, &s).is_ok());
    assert_eq!(stack.pop().unwrap(), Elt::Bool(false));
    assert_eq!(stack.pop().unwrap(), Elt::Int(15));
}

#[test]
fn test_evaluate_line_eq() {
    let mut stack = Stack::new();
    let s = "12".to_string();
    assert!(evaluate_line(&mut stack, &s).is_ok());
    let s = "15".to_string();
    assert!(evaluate_line(&mut stack, &s).is_ok());
    let s = "=".to_string();
    assert!(evaluate_line(&mut stack, &s).is_ok());
    assert_eq!(stack.pop().unwrap(), Elt::Bool(false));
}

#[test]
fn test_evaluate_line_rand() {
    let mut stack = Stack::new();
    let s = "12".to_string();
    assert!(evaluate_line(&mut stack, &s).is_ok());
    let s = "#".to_string();
    assert!(evaluate_line(&mut stack, &s).is_ok());
    let res = stack.pop();
    assert!(res.is_ok());
    let res = res.unwrap();
    assert!(res >= Elt::Int(0));
    assert!(res < Elt::Int(12));
}

#[test]
fn test_evaluate_line_quit() {
    let mut stack = Stack::new();
    let s = "quit".to_string();
    let res = evaluate_line(&mut stack, &s);
    assert!(res.is_err());
    if let Err(Error::Quit) = res {
    } else {
        assert!(false);
    }
}

#[test]
fn test_evaluate_line_bad_parse() {
    let mut stack = Stack::new();
    let s = "~false".to_string();
    let res = evaluate_line(&mut stack, &s);
    assert!(res.is_err());
    if let Err(Error::Syntax) = res {
    } else {
        assert!(false);
    }
}

#[test]
fn evaluate_blank_line_is_a_syntax_error() {
    let mut stack = Stack::new();
    let res = evaluate_line(&mut stack, &" \t\n".to_string());
    assert!(matches!(res, Err(Error::Syntax)));
    assert!(matches!(stack.pop(), Err(Error::Underflow)));
}

#[test]
fn evaluate_uses_first_token_only() {
    let mut stack = Stack::new();
    assert!(evaluate_line(&mut stack, &"  7 8 9\n".to_string()).is_ok());
    assert_eq!(stack.pop().unwrap(), Elt::Int(7));
    assert!(matches!(stack.pop(), Err(Error::Underflow)));
}

#[test]
fn add_with_one_value_loses_it() {
    let mut s = Stack::new();
    s.push(Elt::Int(4)).unwrap();
    assert!(matches!(s.eval(Op::Add), Err(Error::Underflow)));
    assert!(matches!(s.pop(), Err(Error::Underflow)));
}

#[test]
fn add_type_error_drops_both_operands() {
    let mut s = Stack::new();
    s.push(Elt::Int(9)).unwrap();
    s.push(Elt::Int(1)).unwrap();
    s.push(Elt::Bool(true)).unwrap();
    assert!(matches!(s.eval(Op::Add), Err(Error::Type)));
    assert_eq!(s.pop().unwrap(), Elt::Int(9));
}

#[test]
fn peek_reads_without_popping() {
    let mut s = Stack::new();
    assert_eq!(s.peek(0), None);
    s.push(Elt::Int(3)).unwrap();
    s.push(Elt::Bool(true)).unwrap();
    assert_eq!(s.peek(0), Some(Elt::Bool(true)));
    assert_eq!(s.peek(1), Some(Elt::Int(3)));
    assert_eq!(s.peek(2), None);
    assert_eq!(s.pop().unwrap(), Elt::Bool(true));
}

#[test]
fn can_eval_spots_overflow() {
    let mut s = Stack::new();
    s.push(Elt::Int(i32::MAX)).unwrap();
    s.push(Elt::Int(1)).unwrap();
    assert!(!s.can_eval(Op::Add));
    assert!(s.can_eval(Op::Eq));
    let mut t = Stack::new();
    t.push(Elt::Int(i32::MIN)).unwrap();
    assert!(!t.can_eval(Op::Neg));
    assert!(Stack::new().can_eval(Op::Add));
}

#[test]
fn operators_parse() {
    assert!(matches!(parse_operation("+"), Ok(Op::Add)));
    assert!(matches!(parse_operation("~"), Ok(Op::Neg)));
    assert!(matches!(parse_operation("<->"), Ok(Op::Swap)));
    assert!(matches!(parse_operation("="), Ok(Op::Eq)));
    assert!(matches!(parse_operation("#"), Ok(Op::Rand)));
    assert!(matches!(parse_operation("quit"), Ok(Op::Quit)));
    assert!(matches!(parse_operation("++"), Err(Error::Syntax)));
}

#[test]
fn values_parse() {
    assert_eq!(parse_val("-42").unwrap(), Elt::Int(-42));
    assert_eq!(parse_val("+7").unwrap(), Elt::Int(7));
    assert_eq!(parse_val("2147483647").unwrap(), Elt::Int(i32::MAX));
    assert_eq!(parse_val("-2147483648").unwrap(), Elt::Int(i32::MIN));
    assert!(matches!(parse_val("2147483648"), Err(Error::Syntax)));
    assert_eq!(parse_val("true").unwrap(), Elt::Bool(true));
    assert!(matches!(parse_val("True"), Err(Error::Syntax)));
    assert!(matches!(parse_val(""), Err(Error::Syntax)));
}

#[test]
fn random_draws_map_into_range() {
    assert_eq!(rand_below(20, 45), 5);
    assert_eq!(rand_below(-7, 10), -3);
    assert_eq!(rand_below(0, 99), 0);
    assert_eq!(rand_below(i32::MIN, u32::MAX), -2147483647);
}

#[test]
fn line_operation_reads_first_token() {
    assert!(matches!(line_operation(&"  <-> 3".to_string()), Some(Op::Swap)));
    assert!(line_operation(&"12".to_string()).is_none());
    assert!(line_operation(&"".to_string()).is_none());
}
