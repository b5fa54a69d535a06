use virtuc::ast::BinOp;
use virtuc::front_end;
use virtuc::lexer::lex;
use virtuc::parser::parse;
use virtuc::semantic::analyze;
use virtuc::vm::{FloatArith, Value, VM};

struct Doubles;

impl FloatArith for Doubles {
    fn parse(&self, text: &str) -> u64 {
        text.parse::<f64>().unwrap().to_bits()
    }

    fn from_int(&self, v: i64) -> u64 {
        (v as f64).to_bits()
    }

    fn apply(&self, op: BinOp, left: u64, right: u64) -> Value {
        let l = f64::from_bits(left);
        let r = f64::from_bits(right);
        let truth = |b: bool| Value::Int(if b { 1 } else { 0 });
        match op {
            BinOp::Plus => Value::Float((l + r).to_bits()),
            BinOp::Minus => Value::Float((l - r).to_bits()),
            BinOp::Multiply => Value::Float((l * r).to_bits()),
            BinOp::Divide => Value::Float((l / r).to_bits()),
            BinOp::Equal => truth(l == r),
            BinOp::NotEqual => truth(l != r),
            BinOp::LessThan => truth(l < r),
            BinOp::GreaterThan => truth(l > r),
            BinOp::LessEqual => truth(l <= r),
            BinOp::GreaterEqual => truth(l >= r),
        }
    }
}

fn run_vm(source: &str) -> Value {
    let tokens = lex(source).expect("Lexing failed");
    let ast = parse(&tokens).expect("Parsing failed");
    let errors = analyze(&ast);
    assert!(errors.is_empty(), "Semantic errors: {:?}", errors);

    let mut vm = VM::new(&ast);
    vm.run(&Doubles).expect("VM execution failed")
}

fn run_unchecked(source: &str) -> Result<Value, String> {
    let ast = parse(&lex(source).unwrap()).unwrap();
    let mut vm = VM::new(&ast);
    vm.run_with_limit(&Doubles, 100_000)
}

#[test]
fn test_vm_simple_add() {
    let source = r#"
        int main() {
            return 10 + 32;
        }
    "#;
    let result = run_vm(source);
    assert_eq!(result, Value::Int(42));
}

#[test]
fn test_vm_function_call() {
    let source = r#"
        int add(int a, int b) {
            return a + b;
        }

        int main() {
            return add(10, 20);
        }
    "#;
    let result = run_vm(source);
    assert_eq!(result, Value::Int(30));
}

#[test]
fn test_vm_control_flow() {
    let source = r#"
        int main() {
            int a = 10;
            if (a > 5) {
                return 1;
            } else {
                return 0;
            }
        }
    "#;
    let result = run_vm(source);
    assert_eq!(result, Value::Int(1));
}

#[test]
fn test_vm_loop() {
    let source = r#"
        int main() {
            int sum = 0;
            for (int i = 0; i < 5; i = i + 1) {
                sum = sum + i;
            }
            return sum;
        }
    "#;
    let result = run_vm(source);
    assert_eq!(result, Value::Int(10));
}

#[test]
fn test_vm_recursion() {
    let source = r#"
        int fib(int n) {
            if (n <= 1) {
                return n;
            }
            return fib(n - 1) + fib(n - 2);
        }

        int main() {
            return fib(6);
        }
    "#;
    let result = run_vm(source);
    assert_eq!(result, Value::Int(8));
}

#[test]
fn scenario_call_with_two_arguments() {
    assert_eq!(run_vm("int add(int a,int b){return a+b;} int main(){return add(30,12);}"), Value::Int(42));
}

#[test]
fn scenario_if_else() {
    assert_eq!(run_vm("int main(){int a=10; if(a>5){return 1;}else{return 0;}}"), Value::Int(1));
}

#[test]
fn scenario_for_loop_sum() {
    assert_eq!(
        run_vm("int main(){int sum=0; for(int i=0;i<5;i=i+1){sum=sum+i;} return sum;}"),
        Value::Int(10)
    );
}

#[test]
fn scenario_recursive_fib() {
    assert_eq!(
        run_vm("int fib(int n){if(n<=1){return n;} return fib(n-1)+fib(n-2);} int main(){return fib(6);}"),
        Value::Int(8)
    );
}

#[test]
fn arguments_bind_in_declared_order() {
    assert_eq!(run_vm("int sub(int a, int b){return a-b;} int main(){return sub(50, 8);}"), Value::Int(42));
    assert_eq!(run_vm("int div(int a, int b){return a/b;} int main(){return div(0 - 7, 2);}"), Value::Int(-3));
}

#[test]
fn else_branch_and_comparisons() {
    assert_eq!(run_vm("int main(){int a=3; if(a>5){return 1;}else{return 0;}}"), Value::Int(0));
    assert_eq!(run_vm("int main(){return 3 != 3;}"), Value::Int(0));
    assert_eq!(run_vm("int main(){return 2 >= 2;}"), Value::Int(1));
    assert_eq!(run_vm("int main(){int x=0; if(x==0) x=7; return x;}"), Value::Int(7));
}

#[test]
fn falling_off_the_end_returns_zero() {
    assert_eq!(run_vm("int main(){int x = 1;}"), Value::Int(0));
    assert_eq!(run_vm("int f(){} int main(){return f() + 5;}"), Value::Int(5));
}

#[test]
fn missing_main_is_a_fault() {
    let err = run_unchecked("int f(){return 1;}").unwrap_err();
    assert_eq!(err, "Function 'main' not found");
}

#[test]
fn division_by_zero_is_a_fault() {
    assert_eq!(run_unchecked("int main(){int z=0; return 1/z;}").unwrap_err(), "Division by zero");
}

#[test]
fn integer_overflow_is_a_fault() {
    assert_eq!(
        run_unchecked("int main(){return 9223372036854775807 + 1;}").unwrap_err(),
        "Integer overflow"
    );
}

#[test]
fn undefined_names_fault_at_run_time() {
    assert_eq!(run_unchecked("int main(){return y;}").unwrap_err(), "Undefined variable: y");
    assert_eq!(run_unchecked("int main(){return g();}").unwrap_err(), "Undefined function: g");
}

#[test]
fn endless_loop_hits_the_step_limit() {
    assert_eq!(run_unchecked("int main(){for(;;){} return 0;}").unwrap_err(), "Step limit reached");
}

#[test]
fn float_arithmetic_goes_through_the_host() {
    assert_eq!(run_vm("float main(){return 1.5 + 2.25;}"), Value::Float(3.75f64.to_bits()));
    assert_eq!(run_unchecked("int main(){return 2 * 1.5;}").unwrap(), Value::Float(3.0f64.to_bits()));
    assert_eq!(run_vm("int main(){float x = 0.0; if (x < 1.0) { return 1; } return 2;}"), Value::Int(1));
}

#[test]
fn float_truthiness() {
    assert!(!Value::Float(0).is_truthy());
    assert!(!Value::Float(0x8000_0000_0000_0000).is_truthy());
    assert!(Value::Float(1.0f64.to_bits()).is_truthy());
    assert!(!Value::Void.is_truthy());
    assert!(Value::Int(-1).is_truthy());
}

#[test]
fn string_values_evaluate_to_void() {
    assert_eq!(run_unchecked("int main(){string s = \"hi\"; return s;}").unwrap(), Value::Void);
}

#[test]
fn front_end_accepts_valid_programs() {
    let p = front_end("int main(){return 0;}").unwrap();
    assert_eq!(p.functions.len(), 1);
    let err = front_end("int main(){return x;}").unwrap_err();
    assert_eq!(err, "Semantic errors:\nUndefined variable: x");
    assert_eq!(front_end("int main(){ @ }").unwrap_err(), "Invalid token encountered");
    assert!(front_end("int main(){").unwrap_err().starts_with("Parse error: "));
}
