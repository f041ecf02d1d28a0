//! The names of the labels, and why two different labels never share one.

use vstd::prelude::*;
use crate::bincompiler::lowering::{
    branch_label, end_label, end_while_label, function_label, start_label, while_label,
};
use crate::text::{
    decimal, is_digit, lemma_decimal_digits, lemma_decimal_injective, lemma_joined_numerals,
    lemma_same_beginning,
};

verus! {

/// What a label marks.
pub enum Tag {
    /// Where execution starts.
    Start,
    /// The function with this name.
    Function(Seq<char>),
    /// The end of a branch of a conditional, by the numbers of both.
    Branch(nat, nat),
    /// The end of the conditional with this number.
    End(nat),
    /// The head of the while loop with this number.
    While(nat),
    /// The end of the while loop with this number.
    EndWhile(nat),
}

impl Tag {
    /// The name of the label.
    pub open spec fn name(self) -> Seq<char> {
        match self {
            Tag::Start => start_label(),
            Tag::Function(name) => function_label(name),
            Tag::Branch(k, i) => branch_label(k, i),
            Tag::End(k) => end_label(k),
            Tag::While(k) => while_label(k),
            Tag::EndWhile(k) => end_while_label(k),
        }
    }

    /// Whether a program defines the label once at most: that of its start,
    /// and those of conditionals and loops, which are numbered. A function's
    /// label is defined as often as the function is declared.
    pub open spec fn single(self) -> bool {
        !(self is Function)
    }
}

/// What the name of a label begins with: its first character, and for the
/// kinds whose names begin alike, what tells them apart.
proof fn lemma_beginning(tag: Tag)
    ensures
        tag.name().len() > 0,
        tag is Start ==> tag.name()[0] == '_',
        tag is Function ==> tag.name()[0] == 'f',
        tag is Branch ==> tag.name()[0] == 'i',
        tag is While ==> tag.name()[0] == 'w',
        tag is End ==> tag.name()[0] == 'e' && tag.name().len() > 4 && is_digit(tag.name()[4]),
        tag is EndWhile ==> tag.name()[0] == 'e' && tag.name().len() > 4 && tag.name()[4] == 'w',
{
    reveal_strlit("_start");
    reveal_strlit("function_");
    reveal_strlit("if_");
    reveal_strlit("_");
    reveal_strlit("end_");
    reveal_strlit("while_");
    reveal_strlit("end_while_");
    match tag {
        Tag::End(k) => {
            lemma_decimal_digits(k);
            assert(tag.name()[4] == decimal(k)[0]);
        },
        _ => {},
    }
}

/// Different labels have different names.
pub proof fn lemma_names_differ(a: Tag, b: Tag)
    requires
        a.name() == b.name(),
    ensures
        a == b,
{
    lemma_beginning(a);
    lemma_beginning(b);
    match (a, b) {
        (Tag::Function(x), Tag::Function(y)) => {
            lemma_same_beginning("function_"@, x, y);
        },
        (Tag::End(x), Tag::End(y)) => {
            lemma_same_beginning("end_"@, decimal(x), decimal(y));
            lemma_decimal_injective(x, y);
        },
        (Tag::While(x), Tag::While(y)) => {
            lemma_same_beginning("while_"@, decimal(x), decimal(y));
            lemma_decimal_injective(x, y);
        },
        (Tag::EndWhile(x), Tag::EndWhile(y)) => {
            lemma_same_beginning("end_while_"@, decimal(x), decimal(y));
            lemma_decimal_injective(x, y);
        },
        (Tag::Branch(k, i), Tag::Branch(l, j)) => {
            reveal_strlit("_");
            let left = decimal(k).push('_') + decimal(i);
            let right = decimal(l).push('_') + decimal(j);
            assert("_"@ =~= seq!['_']);
            assert("if_"@ + decimal(k) + "_"@ + decimal(i) =~= "if_"@ + left);
            assert("if_"@ + decimal(l) + "_"@ + decimal(j) =~= "if_"@ + right);
            lemma_same_beginning("if_"@, left, right);
            lemma_joined_numerals(k, i, l, j, '_');
        },
        _ => {},
    }
}

} // verus!
