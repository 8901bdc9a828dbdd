use idem::ast::Branch;
use idem::ast::Expression;
use idem::ast::FunctionDefinition;
use idem::ast::FunctionPrototype;
use idem::ast::Statement;
use idem::ast::AST;
use idem::lexing::Location;
use idem::validation::validate;

fn at(line: usize, column: usize) -> Location {
    Location { path: "t.id".to_string(), line, column }
}

#[test]
fn a_branch_without_condition_gives_one_report() {
    let ast = AST {
        statements: vec![Statement::FunctionDefinition(FunctionDefinition {
            prototype: FunctionPrototype {
                name: "main".to_string(),
                arguments: vec![],
                location: at(1, 8),
            },
            body: Expression::Branch(Branch {
                condition: Box::new(Expression::Empty),
                then_branch: Box::new(Expression::Empty),
                else_branch: Box::new(Expression::Empty),
                location: at(2, 3),
            }),
            location: at(1, 1),
        })],
    };
    let reports = validate(&ast);
    assert_eq!(reports.len(), 1);
    assert_eq!(reports[0].issue, "empty branch condition");
    assert_eq!(reports[0].location, at(2, 3));
    assert_eq!(reports[0].to_string(), "t.id:2:3 empty branch condition");
}
