use vstd::prelude::*;

verus! {

/// The generator of the syntax-tree definitions.
pub struct GenerateAst {}

/// The arguments did not name exactly one output directory.
#[derive(Debug, Clone, Copy, PartialEq, Eq, Structural)]
pub struct UsageError;

impl GenerateAst {
    pub fn new() -> Self {
        Self {  }
    }

    /// Generates the definitions into the directory that `args` names.
    /// Succeeds exactly when `args` holds one argument.
    pub fn gen(args: Vec<&str>) -> (outcome: Result<(), UsageError>)
        ensures
            outcome is Ok <==> args@.len() == 1,
    {
        if args.len() != 1 {
            return Err(UsageError);
        }
        let output = args[0];
        let mut types: Vec<&str> = Vec::new();
        types.push("Binary   : Expr left, Token operator, Expr right");
        types.push("Grouping : Expr expression");
        types.push("Literal  : Object value");
        types.push("Unary    : Token operator, Expr right");
        GenerateAst::new().defineAST(output, "Expr", types);
        Ok(())
    }

    #[allow(non_snake_case)]
    fn defineAST(&self, output: &str, base: &str, types: Vec<&str>) {
    }
}

} // verus!
