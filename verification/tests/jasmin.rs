use instant::ast::{Exp, Op, Stmt};
use instant::backend::jasmin::{Instruction, JasminBackend, JasminBuilder};
use instant::backend::Backend;
use instant::text::Render;

fn lit(value: i32) -> Box<Exp<'static>> {
    Box::new(Exp::Lit(value))
}

fn var(name: &'static str, position: usize) -> Box<Exp<'static>> {
    Box::new(Exp::Var { name, position })
}

fn bi(lhs: Box<Exp<'static>>, op: Op, rhs: Box<Exp<'static>>) -> Box<Exp<'static>> {
    Box::new(Exp::Bi { lhs, op, rhs })
}

fn unit(class: &str, stack: usize, locals: usize, body: &str) -> String {
    format!(
        ".source {class}.j\n\n.class public {class}\n\n.super java/lang/Object\n\n\
         .method public <init>()V\n.limit stack 1\n.limit locals 1\naload_0\n\
         invokenonvirtual java/lang/Object/<init>()V\nreturn\n.end method\n\n\
         .method public static main([Ljava/lang/String;)V\n.limit stack {stack}\n\
         .limit locals {locals}\n{body}return\n.end method\n"
    )
}

#[test]
fn instructions_representation() {
    assert_eq!(Instruction::IStore(0).to_string(), "istore_0");
    assert_eq!(Instruction::IStore(3).to_string(), "istore_3");
    assert_eq!(Instruction::IStore(4).to_string(), "istore 4");

    assert_eq!(Instruction::Push(0).to_string(), "iconst_0");
    assert_eq!(Instruction::Push(5).to_string(), "iconst_5");
    assert_eq!(Instruction::Push(6).to_string(), "bipush 6");
    assert_eq!(Instruction::Push(127).to_string(), "bipush 127");
    assert_eq!(Instruction::Push(128).to_string(), "sipush 0 128");
    assert_eq!(Instruction::Push(32767).to_string(), "sipush 127 255");
    assert_eq!(Instruction::Push(32768).to_string(), "ldc 32768");

    assert_eq!(Instruction::ILoad(0).to_string(), "iload_0");
    assert_eq!(Instruction::ILoad(3).to_string(), "iload_3");
    assert_eq!(Instruction::ILoad(4).to_string(), "iload 4");
}

#[test]
fn expression_optimization() {
    let builder = JasminBuilder::new("dummy".into());

    let processed = builder.process_exp(&Exp::Lit(0)).unwrap();
    assert_eq!(processed.instructions, [Instruction::Push(0)]);
    assert_eq!(processed.depth, 1);

    let error = builder
        .process_exp(&Exp::Var {
            name: "name",
            position: 0,
        })
        .expect_err("undeclared variable access should result in an error");
    assert_eq!(error.name, "name");
    assert_eq!(error.byte_offset, 0);

    let processed = builder
        .process_exp(&Exp::Bi {
            lhs: Exp::Lit(0).into(),
            op: Op::Add,
            rhs: Exp::Lit(1).into(),
        })
        .unwrap();
    assert_eq!(
        processed.instructions,
        [
            Instruction::Push(0),
            Instruction::Push(1),
            Instruction::BinOp(Op::Add)
        ]
    );
    assert_eq!(processed.depth, 2);

    let processed = builder
        .process_exp(&Exp::Bi {
            lhs: Exp::Lit(0).into(),
            op: Op::Mul,
            rhs: Exp::Bi {
                lhs: Exp::Lit(2).into(),
                op: Op::Sub,
                rhs: Exp::Lit(5).into(),
            }
            .into(),
        })
        .unwrap();
    assert_eq!(
        processed.instructions,
        [
            Instruction::Push(2),
            Instruction::Push(5),
            Instruction::BinOp(Op::Sub),
            Instruction::Push(0),
            Instruction::BinOp(Op::Mul)
        ]
    );
    assert_eq!(processed.depth, 2);

    let processed = builder
        .process_exp(&Exp::Bi {
            lhs: Exp::Lit(0).into(),
            op: Op::Div,
            rhs: Exp::Bi {
                lhs: Exp::Lit(2).into(),
                op: Op::Sub,
                rhs: Exp::Lit(5).into(),
            }
            .into(),
        })
        .unwrap();
    assert_eq!(
        processed.instructions,
        [
            Instruction::Push(2),
            Instruction::Push(5),
            Instruction::BinOp(Op::Sub),
            Instruction::Push(0),
            Instruction::Swap,
            Instruction::BinOp(Op::Div)
        ]
    );
    assert_eq!(processed.depth, 2);
}

#[test]
fn remaining_instructions_representation() {
    assert_eq!(
        Instruction::GetPrintStream.to_string(),
        "getstatic java/lang/System/out Ljava/io/PrintStream;"
    );
    assert_eq!(Instruction::Swap.to_string(), "swap");
    assert_eq!(
        Instruction::Println.to_string(),
        "invokevirtual java/io/PrintStream/println(I)V"
    );
    assert_eq!(Instruction::BinOp(Op::Add).to_string(), "iadd");
    assert_eq!(Instruction::BinOp(Op::Sub).to_string(), "isub");
    assert_eq!(Instruction::BinOp(Op::Mul).to_string(), "imul");
    assert_eq!(Instruction::BinOp(Op::Div).to_string(), "idiv");
    assert_eq!(Instruction::IStore(1234567).to_string(), "istore 1234567");
    assert_eq!(Instruction::ILoad(10).to_string(), "iload 10");
}

#[test]
fn push_outside_the_short_forms() {
    assert_eq!(Instruction::Push(256).to_string(), "sipush 1 0");
    assert_eq!(Instruction::Push(1000).to_string(), "sipush 3 232");
    assert_eq!(Instruction::Push(-1).to_string(), "ldc -1");
    assert_eq!(Instruction::Push(-128).to_string(), "ldc -128");
    assert_eq!(Instruction::Push(i32::MAX).to_string(), "ldc 2147483647");
    assert_eq!(Instruction::Push(i32::MIN).to_string(), "ldc -2147483648");
}

#[test]
fn commutativity() {
    assert!(Op::Add.commutative());
    assert!(Op::Mul.commutative());
    assert!(!Op::Sub.commutative());
    assert!(!Op::Div.commutative());
}

#[test]
fn literal_is_one_push_of_depth_one() {
    let builder = JasminBuilder::new(String::from("c"));
    for value in [i32::MIN, -1, 0, 5, 6, 128, 32768, i32::MAX] {
        let processed = builder.process_exp(&Exp::Lit(value)).unwrap();
        assert_eq!(processed.instructions, [Instruction::Push(value)]);
        assert_eq!(processed.depth, 1);
    }
}

#[test]
fn depth_stays_within_one_of_the_deeper_operand() {
    let builder = JasminBuilder::new(String::from("c"));
    let two = bi(lit(1), Op::Add, lit(2));
    assert_eq!(builder.process_exp(&two).unwrap().depth, 2);
    let left_deeper = bi(bi(lit(1), Op::Add, lit(2)), Op::Sub, lit(3));
    assert_eq!(builder.process_exp(&left_deeper).unwrap().depth, 2);
    let right_deeper = bi(lit(3), Op::Sub, bi(lit(1), Op::Add, lit(2)));
    assert_eq!(builder.process_exp(&right_deeper).unwrap().depth, 2);
    let balanced = bi(
        bi(lit(1), Op::Add, lit(2)),
        Op::Mul,
        bi(lit(3), Op::Add, lit(4)),
    );
    assert_eq!(builder.process_exp(&balanced).unwrap().depth, 3);
    let chain = bi(lit(0), Op::Add, bi(lit(1), Op::Add, bi(lit(2), Op::Add, lit(3))));
    assert_eq!(builder.process_exp(&chain).unwrap().depth, 2);
}

#[test]
fn swap_only_for_a_deeper_right_operand_of_a_non_commutative_operation() {
    let builder = JasminBuilder::new(String::from("c"));
    let deep = || bi(lit(2), Op::Add, lit(5));
    for (op, swapped) in [(Op::Add, false), (Op::Mul, false), (Op::Sub, true), (Op::Div, true)] {
        let right_deeper = builder.process_exp(&bi(lit(0), op, deep())).unwrap();
        let expected = if swapped {
            vec![
                Instruction::Push(2),
                Instruction::Push(5),
                Instruction::BinOp(Op::Add),
                Instruction::Push(0),
                Instruction::Swap,
                Instruction::BinOp(op),
            ]
        } else {
            vec![
                Instruction::Push(2),
                Instruction::Push(5),
                Instruction::BinOp(Op::Add),
                Instruction::Push(0),
                Instruction::BinOp(op),
            ]
        };
        assert_eq!(right_deeper.instructions, expected);

        let left_deeper = builder.process_exp(&bi(deep(), op, lit(0))).unwrap();
        assert_eq!(
            left_deeper.instructions,
            [
                Instruction::Push(2),
                Instruction::Push(5),
                Instruction::BinOp(Op::Add),
                Instruction::Push(0),
                Instruction::BinOp(op),
            ]
        );

        let equal = builder.process_exp(&bi(lit(7), op, lit(8))).unwrap();
        assert_eq!(
            equal.instructions,
            [Instruction::Push(7), Instruction::Push(8), Instruction::BinOp(op)]
        );
    }
}

#[test]
fn nested_undeclared_variable_in_the_stack_backend() {
    let builder = JasminBuilder::new(String::from("c"));
    let exp = bi(
        lit(1),
        Op::Add,
        bi(lit(2), Op::Mul, bi(var("deep", 17), Op::Sub, var("later", 23))),
    );
    let error = builder.process_exp(&exp).unwrap_err();
    assert_eq!(error.name, "deep");
    assert_eq!(error.byte_offset, 17);

    let program = [
        Stmt::Ass { var: "a", exp: Exp::Lit(1) },
        Stmt::Exp(*bi(var("a", 7), Op::Add, bi(var("b", 11), Op::Add, var("c", 15)))),
        Stmt::Exp(Exp::Var { name: "d", position: 20 }),
    ];
    let error = match JasminBackend::new(String::from("c")).process(&program) {
        Ok(_) => panic!("the program accesses an undeclared variable"),
        Err(error) => error,
    };
    assert_eq!(error.name, "b");
    assert_eq!(error.byte_offset, 11);
}

#[test]
fn assignment_to_itself_before_declaration_fails() {
    let program = [Stmt::Ass { var: "a", exp: *bi(var("a", 4), Op::Add, lit(1)) }];
    let error = match JasminBackend::new(String::from("c")).process(&program) {
        Ok(_) => panic!("the program accesses an undeclared variable"),
        Err(error) => error,
    };
    assert_eq!(error.name, "a");
    assert_eq!(error.byte_offset, 4);
}

#[test]
fn failed_statement_leaves_the_builder_as_it_was() {
    let mut builder = JasminBuilder::new(String::from("c"));
    builder.add_stmt(&Stmt::Ass { var: "a", exp: Exp::Lit(1) }).unwrap();
    let error = builder
        .add_stmt(&Stmt::Ass { var: "b", exp: *bi(lit(1), Op::Add, var("x", 9)) })
        .unwrap_err();
    assert_eq!(error.name, "x");
    assert_eq!(error.byte_offset, 9);
    builder.add_stmt(&Stmt::Ass { var: "c", exp: Exp::Lit(2) }).unwrap();
    assert_eq!(
        builder.build().to_string(),
        unit("c", 1, 3, "iconst_1\nistore_1\niconst_2\nistore_2\n")
    );
}

#[test]
fn slots_are_given_in_order_of_first_assignment() {
    let program = [
        Stmt::Ass { var: "a", exp: Exp::Lit(1) },
        Stmt::Ass { var: "b", exp: Exp::Lit(2) },
        Stmt::Ass { var: "a", exp: Exp::Lit(3) },
        Stmt::Ass { var: "c", exp: Exp::Lit(4) },
        Stmt::Ass { var: "d", exp: *var("b", 0) },
        Stmt::Ass { var: "a", exp: *var("d", 0) },
    ];
    let text = JasminBackend::new(String::from("Slots")).process(&program).unwrap().to_string();
    assert_eq!(
        text,
        unit(
            "Slots",
            1,
            5,
            "iconst_1\nistore_1\niconst_2\nistore_2\niconst_3\nistore_1\n\
             iconst_4\nistore_3\niload_2\nistore 4\niload 4\nistore_1\n"
        )
    );
}

#[test]
fn assignment_and_print_of_a_product() {
    let program = [
        Stmt::Ass { var: "a", exp: *bi(lit(2), Op::Add, lit(3)) },
        Stmt::Exp(*bi(var("a", 15), Op::Mul, bi(lit(2), Op::Sub, lit(5)))),
    ];
    let text = JasminBackend::new(String::from("Main")).process(&program).unwrap().to_string();
    assert_eq!(
        text,
        unit(
            "Main",
            2,
            2,
            "iconst_2\niconst_3\niadd\nistore_1\n\
             iconst_2\niconst_5\nisub\niload_1\nimul\n\
             getstatic java/lang/System/out Ljava/io/PrintStream;\nswap\n\
             invokevirtual java/io/PrintStream/println(I)V\n"
        )
    );
}

#[test]
fn print_of_a_shallow_expression_goes_above_the_stream() {
    let program = [Stmt::Exp(Exp::Lit(7))];
    let text = JasminBackend::new(String::from("P")).process(&program).unwrap().to_string();
    assert_eq!(
        text,
        unit(
            "P",
            2,
            1,
            "getstatic java/lang/System/out Ljava/io/PrintStream;\nbipush 7\n\
             invokevirtual java/io/PrintStream/println(I)V\n"
        )
    );
}

#[test]
fn stack_limit_is_the_largest_statement_depth() {
    let deep = bi(bi(lit(1), Op::Add, lit(2)), Op::Mul, bi(lit(3), Op::Add, lit(4)));
    let program = [
        Stmt::Ass { var: "a", exp: *deep },
        Stmt::Exp(Exp::Lit(0)),
        Stmt::Ass { var: "b", exp: Exp::Lit(1) },
    ];
    let text = JasminBackend::new(String::from("D")).process(&program).unwrap().to_string();
    assert_eq!(
        text,
        unit(
            "D",
            3,
            3,
            "iconst_1\niconst_2\niadd\niconst_3\niconst_4\niadd\nimul\nistore_1\n\
             getstatic java/lang/System/out Ljava/io/PrintStream;\niconst_0\n\
             invokevirtual java/io/PrintStream/println(I)V\niconst_1\nistore_2\n"
        )
    );
}

#[test]
fn empty_program_for_the_stack_backend() {
    let text = JasminBackend::new(String::from("Empty")).process(&[]).unwrap().to_string();
    assert_eq!(text, unit("Empty", 0, 1, ""));
}

#[test]
fn stack_backend_gives_the_same_text_twice() {
    let program = [
        Stmt::Ass { var: "x", exp: *bi(lit(200), Op::Div, lit(-3)) },
        Stmt::Exp(*bi(var("x", 0), Op::Sub, bi(var("x", 0), Op::Mul, lit(40000)))),
    ];
    let backend = JasminBackend::new(String::from("Twice"));
    let first = backend.process(&program).unwrap().to_string();
    let second = backend.process(&program).unwrap().to_string();
    assert_eq!(first, second);
    assert_eq!(
        first,
        unit(
            "Twice",
            2,
            2,
            "sipush 0 200\nldc -3\nidiv\nistore_1\n\
             iload_1\nldc 40000\nimul\niload_1\nswap\nisub\n\
             getstatic java/lang/System/out Ljava/io/PrintStream;\nswap\n\
             invokevirtual java/io/PrintStream/println(I)V\n"
        )
    );
}
