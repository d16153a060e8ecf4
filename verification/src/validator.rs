//! Checks of a parsed program as a whole.
use crate::gcode_parser::block::Block;
use crate::gcode_parser::program::{all_tokens, blocks_view, GcodeProgram};
use crate::gcode_parser::token::{Token, TokenView};
use vstd::prelude::*;

verus! {

#[derive(Debug)]
pub struct ValidationError {
    /// The block in which this error occurred
    pub block: Option<Block>,
    /// The token(s) in which this error occurred
    pub tokens: Option<Vec<Token>>,
    /// Human readable error message
    pub message: String,
}

impl ValidationError {
    /// An error with a message only.
    pub fn message_only(s: &str) -> (r: Self)
        ensures
            r.block is None,
            r.tokens is None,
            r.message@ == s@,
    {
        Self { tokens: None, block: None, message: s.to_owned() }
    }
}

/// A rule that a program must follow.
#[derive(Debug, Clone, Copy, PartialEq, Eq)]
pub enum Rule {
    /// The end of the program. An `M2` (end of program) is where a program ends, but a program
    /// without one is accepted too.
    ProgramEnd,
}

/// Whether a program with these tokens follows the rule: every program follows the program end
/// rule, whether or not it has an `M2`.
pub open spec fn follows(rule: Rule, tokens: Seq<TokenView>) -> bool {
    match rule {
        Rule::ProgramEnd => true,
    }
}

/// The first of the rules that a program with these tokens breaks, if any.
pub open spec fn first_broken(rules: Seq<Rule>, tokens: Seq<TokenView>) -> Option<Rule>
    decreases rules.len(),
{
    if rules.len() == 0 {
        None
    } else if !follows(rules[0], tokens) {
        Some(rules[0])
    } else {
        first_broken(rules.drop_first(), tokens)
    }
}

/// Check the program against the program end rule: it accepts every program.
fn check_program_end(program: &GcodeProgram) -> (r: Result<(), Vec<ValidationError>>)
    ensures
        r is Ok,
        follows(Rule::ProgramEnd, all_tokens(blocks_view(program.blocks@))),
{
    Ok(())
}

pub struct GcodeValidator {
    rules: Vec<Rule>,
}

impl GcodeValidator {
    /// A validator with every rule: the program end rule.
    pub fn new() -> (r: Self)
        ensures
            r.rules() == seq![Rule::ProgramEnd],
    {
        let mut rules = Vec::new();
        rules.push(Rule::ProgramEnd);
        Self { rules }
    }

    /// The rules that the validator checks, in order.
    pub closed spec fn rules(&self) -> Seq<Rule> {
        self.rules@
    }

    /// Check the program against each rule in turn. The outcome is `Ok` when it follows all of
    /// them; otherwise an error for the first rule it breaks.
    pub fn validate(&self, program: &GcodeProgram) -> (r: Result<(), Vec<ValidationError>>)
        ensures
            r is Ok,
            match (r, first_broken(self.rules(), all_tokens(blocks_view(program.blocks@)))) {
                (Ok(_), None) => true,
                (Err(v), Some(rule)) => v@.len() == 1,
                _ => false,
            },
    {
        let ghost tv = all_tokens(blocks_view(program.blocks@));
        let mut i: usize = 0;
        assert(self.rules@.skip(0) =~= self.rules@);
        while i < self.rules.len()
            invariant
                i <= self.rules@.len(),
                tv == all_tokens(blocks_view(program.blocks@)),
                first_broken(self.rules@, tv) == first_broken(self.rules@.skip(i as int), tv),
            decreases self.rules@.len() - i,
        {
            assert(self.rules@.skip(i as int).drop_first() =~= self.rules@.skip(i + 1));
            assert(self.rules@.skip(i as int)[0] == self.rules@[i as int]);
            match self.rules[i] {
                Rule::ProgramEnd => {
                    match check_program_end(program) {
                        Ok(_) => {},
                        Err(v) => {
                            return Err(v);
                        },
                    }
                },
            }
            i = i + 1;
        }
        assert(self.rules@.skip(i as int) =~= Seq::<Rule>::empty());
        Ok(())
    }
}

/// A new validator accepts every program, with or without an `M2`.
pub proof fn law_new_validator_accepts_all(tokens: Seq<TokenView>)
    ensures
        first_broken(seq![Rule::ProgramEnd], tokens) is None,
{
    let rules = seq![Rule::ProgramEnd];
    assert(rules[0] == Rule::ProgramEnd);
    assert(rules.drop_first() =~= Seq::<Rule>::empty());
    assert(first_broken(Seq::<Rule>::empty(), tokens) is None);
}

} // verus!
