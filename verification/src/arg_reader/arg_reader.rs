//! Reading the command line.

use vstd::prelude::*;
use std::collections::VecDeque;
use crate::arg_reader::arg_map::ArgMap;
use crate::arg_reader::arg_value::{typed, ArgValue, ArgValueView};
use crate::names::{texts, NameMap};
use crate::text::{first_index, owned, replace, replaced, split_once, starts_with};

verus! {

/// Why a command line cannot be read.
#[derive(Debug)]
pub enum ReaderError {
    /// An option that takes a value is the last word of the command line. The
    /// name is that of the argument.
    MissingRequiredArgument(String),
    /// A word that is no binding, and cannot be a positional argument.
    UnknownArgument(String),
}

/// Why a command line cannot be read, as plain values.
pub enum Refusal {
    MissingRequiredArgument(Seq<char>),
    UnknownArgument(Seq<char>),
}

impl ReaderError {
    /// The error as plain values.
    pub open spec fn view(&self) -> Refusal {
        match *self {
            ReaderError::MissingRequiredArgument(name) => Refusal::MissingRequiredArgument(name@),
            ReaderError::UnknownArgument(word) => Refusal::UnknownArgument(word@),
        }
    }
}

/// The word that stands for a binding on the command line: one ASCII
/// character gets one dash in front, anything else two dashes, with every
/// underscore and space turned into a dash.
pub open spec fn corrected(binding: Seq<char>) -> Seq<char> {
    if binding.len() == 1 && binding[0] <= '\u{7f}' {
        seq!['-'] + binding
    } else {
        seq!['-', '-'] + replaced(replaced(binding, '_', '-'), ' ', '-')
    }
}

/// The word that stands for `binding` on the command line.
pub fn correct_binding(binding: &str) -> (word: String)
    ensures
        word@ == corrected(binding@),
{
    if binding.unicode_len() == 1 && binding.get_char(0) <= '\u{7f}' {
        proof {
            reveal_strlit("-");
            assert("-"@ =~= seq!['-']);
        }
        owned("-").concat(binding)
    } else {
        proof {
            reveal_strlit("--");
            assert("--"@ =~= seq!['-', '-']);
        }
        let dashed = replace(replace(binding, '_', '-').as_str(), ' ', '-');
        owned("--").concat(dashed.as_str())
    }
}

/// The name and the value of a word of the form `name=value`: the name is
/// what stands before the first `=`, the value what stands between it and
/// the next `=`, or the end of the word.
pub open spec fn assigned(word: Seq<char>) -> Option<(Seq<char>, Seq<char>)> {
    match first_index(word, '=') {
        None => None,
        Some(i) => {
            let rest = word.skip(i + 1);
            Some(
                (
                    word.take(i),
                    match first_index(rest, '=') {
                        Some(j) => rest.take(j),
                        None => rest,
                    },
                ),
            )
        },
    }
}

/// The state of a reader, as plain values.
#[verifier::ext_equal]
pub struct Reader {
    /// The value of each argument registered so far.
    pub args: Map<Seq<char>, Option<ArgValueView>>,
    /// The argument that each flag stands for.
    pub bindings: Map<Seq<char>, Seq<char>>,
    /// The argument that each option with a value stands for.
    pub required: Map<Seq<char>, Seq<char>>,
    /// The arguments that words without a binding go to, in order.
    pub positional: Seq<Seq<char>>,
    /// The argument that is being described.
    pub current: Option<Seq<char>>,
}

/// What the reading of a command line yields.
pub type Reading = Result<Map<Seq<char>, Option<ArgValueView>>, Refusal>;

impl Reader {
    /// The reader in which the argument that was being described is
    /// registered, without a value.
    pub open spec fn settled(self) -> Reader {
        match self.current {
            Some(name) => Reader { args: self.args.insert(name, None), ..self },
            None => self,
        }
    }

    /// The reader after `register`.
    pub open spec fn registered(self, arg: Seq<char>) -> Reader {
        Reader { current: Some(arg), ..self.settled() }
    }

    /// The reader after `bind`: every binding stands for the current argument.
    pub open spec fn bound(self, bindings: Seq<Seq<char>>) -> Reader
        decreases bindings.len(),
    {
        if bindings.len() == 0 {
            self
        } else {
            let before = self.bound(bindings.drop_last());
            Reader {
                bindings: before.bindings.insert(corrected(bindings.last()), self.current->0),
                ..before
            }
        }
    }

    /// The reader after `bind_with_required`.
    pub open spec fn bound_with_required(self, bindings: Seq<Seq<char>>) -> Reader
        decreases bindings.len(),
    {
        if bindings.len() == 0 {
            self
        } else {
            let before = self.bound_with_required(bindings.drop_last());
            Reader {
                required: before.required.insert(corrected(bindings.last()), self.current->0),
                ..before
            }
        }
    }

    /// The reader with `value` as the value of the argument `name`.
    pub open spec fn given(self, name: Seq<char>, value: ArgValueView) -> Reader {
        Reader { args: self.args.insert(name, Some(value)), ..self }
    }

    /// The values after the words have been read, one after the other. A flag
    /// makes its argument true. An option takes the next word as its value. A
    /// word `name=value` gives the option `name` the value. Any other word
    /// that does not begin with a dash goes to the next positional argument.
    pub open spec fn read(self, words: Seq<Seq<char>>, floats: Map<Seq<char>, u64>) -> Reading
        decreases words.len(),
    {
        if words.len() == 0 {
            Ok(self.args)
        } else {
            let word = words[0];
            if self.bindings.contains_key(word) {
                self.given(self.bindings[word], ArgValueView::Bool(true)).read(
                    words.skip(1),
                    floats,
                )
            } else if self.required.contains_key(word) {
                if words.len() >= 2 {
                    self.given(self.required[word], typed(words[1], floats)).read(
                        words.skip(2),
                        floats,
                    )
                } else {
                    Err(Refusal::MissingRequiredArgument(self.required[word]))
                }
            } else {
                match assigned(word) {
                    Some((name, value)) => if self.required.contains_key(name) {
                        self.given(self.required[name], typed(value, floats)).read(
                            words.skip(1),
                            floats,
                        )
                    } else {
                        Err(Refusal::UnknownArgument(word))
                    },
                    None => if word.len() > 0 && word[0] == '-' {
                        Err(Refusal::UnknownArgument(word))
                    } else if self.positional.len() > 0 {
                        (Reader {
                            positional: self.positional.skip(1),
                            ..self.given(self.positional[0], typed(word, floats))
                        }).read(words.skip(1), floats)
                    } else {
                        Err(Refusal::UnknownArgument(word))
                    },
                }
            }
        }
    }
}

/// The values of a table of arguments, as plain values.
pub open spec fn plain(values: Map<Seq<char>, Option<ArgValue>>) -> Map<
    Seq<char>,
    Option<ArgValueView>,
> {
    values.map_values(
        |value: Option<ArgValue>|
            match value {
                Some(v) => Some(v@),
                None => None,
            },
    )
}

/// The names that a table maps to, as plain values.
pub open spec fn named(table: Map<Seq<char>, String>) -> Map<Seq<char>, Seq<char>> {
    table.map_values(|name: String| name@)
}

/// A reader of command lines. It is described argument by argument: an
/// argument is registered, then its bindings are given.
#[derive(Debug, Clone)]
pub struct ArgReader {
    args: NameMap<Option<ArgValue>>,
    bindings: NameMap<String>,
    bindings_with_required: NameMap<String>,
    positional_args: VecDeque<String>,
    current_arg: Option<String>,
}

impl ArgReader {
    /// The tables are well formed.
    pub closed spec fn wf(&self) -> bool {
        &&& self.args.wf()
        &&& self.bindings.wf()
        &&& self.bindings_with_required.wf()
    }

    /// The state of the reader as plain values.
    pub closed spec fn view(&self) -> Reader {
        Reader {
            args: plain(self.args@),
            bindings: named(self.bindings@),
            required: named(self.bindings_with_required@),
            positional: texts(self.positional_args@),
            current: match self.current_arg {
                Some(name) => Some(name@),
                None => None,
            },
        }
    }

    /// A reader that knows no argument.
    pub fn new() -> (reader: Self)
        ensures
            reader.wf(),
            reader@ == (Reader {
                args: Map::empty(),
                bindings: Map::empty(),
                required: Map::empty(),
                positional: Seq::empty(),
                current: None,
            }),
    {
        let reader = ArgReader {
            args: NameMap::new(),
            bindings: NameMap::new(),
            bindings_with_required: NameMap::new(),
            positional_args: VecDeque::new(),
            current_arg: None,
        };
        proof {
            assert(reader@.args =~= Map::empty());
            assert(reader@.bindings =~= Map::empty());
            assert(reader@.required =~= Map::empty());
            assert(reader@.positional =~= Seq::empty());
        }
        reader
    }

    /// Whether an argument is being described, so that bindings can be given.
    pub fn is_describing(&self) -> (r: bool)
        ensures
            r == (self@.current is Some),
    {
        self.current_arg.is_some()
    }

    /// Registers the argument that was being described, if there was one.
    fn settle(&mut self)
        requires
            old(self).wf(),
        ensures
            final(self).wf(),
            final(self)@ == old(self)@.settled(),
    {
        match &self.current_arg {
            Some(name) => {
                self.args.insert(name.clone(), None);
                proof {
                    assert(self@.args =~= old(self)@.settled().args);
                }
            },
            None => {},
        }
    }

    /// Starts the description of the argument `arg`. The argument described
    /// before is registered.
    pub fn register(self, arg: &str) -> (reader: Self)
        requires
            self.wf(),
        ensures
            reader.wf(),
            reader@ == self@.registered(arg@),
    {
        let mut reader = self;
        reader.settle();
        reader.current_arg = Some(owned(arg));
        reader
    }

    /// Makes each of `bindings` a flag of the current argument: given on the
    /// command line, it makes the argument true.
    pub fn bind(self, bindings: Vec<&str>) -> (reader: Self)
        requires
            self.wf(),
            self@.current is Some,
        ensures
            reader.wf(),
            reader@ == self@.bound(Seq::new(bindings.len() as nat, |i: int| bindings[i]@)),
    {
        let mut reader = self;
        let ghost all = Seq::new(bindings.len() as nat, |i: int| bindings[i]@);
        let mut i: usize = 0;
        while i < bindings.len()
            invariant
                i <= bindings.len(),
                reader.wf(),
                all == Seq::new(bindings.len() as nat, |i: int| bindings[i]@),
                reader@ == self@.bound(all.take(i as int)),
                self@.current is Some,
            decreases bindings.len() - i,
        {
            let ghost before = reader@;
            proof {
                assert(all.take(i as int + 1).drop_last() =~= all.take(i as int));
                assert(reader@.current == self@.current) by {
                    lemma_bound_keeps(self@, all.take(i as int));
                }
            }
            let name = match &reader.current_arg {
                Some(name) => name.clone(),
                None => String::new(),
            };
            reader.bindings.insert(correct_binding(bindings[i]), name);
            proof {
                assert(reader@.bindings =~= before.bindings.insert(
                    corrected(all[i as int]),
                    self@.current->0,
                ));
            }
            i += 1;
        }
        proof {
            assert(all.take(i as int) =~= all);
        }
        reader
    }

    /// Makes each of `bindings` an option of the current argument: given on
    /// the command line, it takes a value for the argument.
    pub fn bind_with_required(self, bindings: Vec<&str>) -> (reader: Self)
        requires
            self.wf(),
            self@.current is Some,
        ensures
            reader.wf(),
            reader@ == self@.bound_with_required(
                Seq::new(bindings.len() as nat, |i: int| bindings[i]@),
            ),
    {
        let mut reader = self;
        let ghost all = Seq::new(bindings.len() as nat, |i: int| bindings[i]@);
        let mut i: usize = 0;
        while i < bindings.len()
            invariant
                i <= bindings.len(),
                reader.wf(),
                all == Seq::new(bindings.len() as nat, |i: int| bindings[i]@),
                reader@ == self@.bound_with_required(all.take(i as int)),
                self@.current is Some,
            decreases bindings.len() - i,
        {
            let ghost before = reader@;
            proof {
                assert(all.take(i as int + 1).drop_last() =~= all.take(i as int));
                assert(reader@.current == self@.current) by {
                    lemma_bound_with_required_keeps(self@, all.take(i as int));
                }
            }
            let name = match &reader.current_arg {
                Some(name) => name.clone(),
                None => String::new(),
            };
            reader.bindings_with_required.insert(correct_binding(bindings[i]), name);
            proof {
                assert(reader@.required =~= before.required.insert(
                    corrected(all[i as int]),
                    self@.current->0,
                ));
            }
            i += 1;
        }
        proof {
            assert(all.take(i as int) =~= all);
        }
        reader
    }

    /// Makes `arg` the argument that the next word without a binding goes to,
    /// after those named before.
    pub fn bind_positional(self, arg: &str) -> (reader: Self)
        requires
            self.wf(),
        ensures
            reader.wf(),
            reader@ == (Reader { positional: self@.positional.push(arg@), ..self@ }),
    {
        let mut reader = self;
        reader.positional_args.push_back(owned(arg));
        proof {
            assert(reader@.positional =~= self@.positional.push(arg@));
        }
        reader
    }

    /// Reads the words of a command line, without the name of the program.
    /// `floats` lists the texts that are floats, each with the bit pattern of
    /// its number.
    pub fn read_args(self, args: Vec<String>, floats: &NameMap<u64>) -> (r: Result<
        ArgMap,
        ReaderError,
    >)
        requires
            self.wf(),
            floats.wf(),
        ensures
            match self@.settled().read(texts(args@), floats@) {
                Ok(values) => r is Ok && r->Ok_0.wf() && plain(r->Ok_0@) == values,
                Err(refusal) => r is Err && r->Err_0@ == refusal,
            },
    {
        let mut reader = self;
        reader.settle();
        let ghost words = texts(args@);
        let ghost start = reader@;
        let mut i: usize = 0;
        assert(words.skip(0) =~= words);
        while i < args.len()
            invariant
                i <= args.len(),
                reader.wf(),
                floats.wf(),
                words == texts(args@),
                start == self@.settled(),
                start.read(words, floats@) == reader@.read(words.skip(i as int), floats@),
            decreases args.len() - i,
        {
            let ghost rest = words.skip(i as int);
            let ghost before = reader@;
            proof {
                assert(rest.len() == args.len() - i);
                assert(rest[0] == args[i as int]@);
                assert(rest.skip(1) =~= words.skip(i as int + 1));
            }
            let word = &args[i];
            match reader.bindings.get(word.as_str()) {
                Some(name) => {
                    reader.args.insert(name.clone(), Some(ArgValue::from(true)));
                    proof {
                        assert(reader@.args =~= before.given(
                            before.bindings[word@],
                            ArgValueView::Bool(true),
                        ).args);
                    }
                    i += 1;
                    continue ;
                },
                None => {},
            }
            match reader.bindings_with_required.get(word.as_str()) {
                Some(name) => {
                    if i + 1 >= args.len() {
                        proof {
                            assert(before.read(rest, floats@) == Err::<
                                Map<Seq<char>, Option<ArgValueView>>,
                                Refusal,
                            >(Refusal::MissingRequiredArgument(name@)));
                        }
                        return Err(ReaderError::MissingRequiredArgument(name.clone()));
                    }
                    proof {
                        assert(rest[1] == args[i as int + 1]@);
                        assert(rest.skip(2) =~= words.skip(i as int + 2));
                    }
                    let value = ArgValue::parse(args[i + 1].as_str(), floats);
                    reader.args.insert(name.clone(), Some(value));
                    proof {
                        assert(reader@.args =~= before.given(
                            before.required[word@],
                            typed(rest[1], floats@),
                        ).args);
                    }
                    i += 2;
                    continue ;
                },
                None => {},
            }
            match split_once(word.as_str(), '=') {
                Some((name, rest_of_word)) => {
                    let text = match split_once(rest_of_word.as_str(), '=') {
                        Some((value, _)) => value,
                        None => rest_of_word,
                    };
                    assert(assigned(word@) == Some((name@, text@)));
                    match reader.bindings_with_required.get(name.as_str()) {
                        Some(argument) => {
                            let value = ArgValue::parse(text.as_str(), floats);
                            reader.args.insert(argument.clone(), Some(value));
                            proof {
                                assert(reader@.args =~= before.given(
                                    before.required[name@],
                                    typed(text@, floats@),
                                ).args);
                            }
                        },
                        None => {
                            return Err(ReaderError::UnknownArgument(word.clone()));
                        },
                    }
                },
                None => {
                    if starts_with(word.as_str(), '-') {
                        return Err(ReaderError::UnknownArgument(word.clone()));
                    }
                    match reader.positional_args.pop_front() {
                        Some(argument) => {
                            let value = ArgValue::parse(word.as_str(), floats);
                            reader.args.insert(argument, Some(value));
                            proof {
                                assert(reader@.positional =~= before.positional.skip(1));
                                assert(reader@.args =~= before.given(
                                    before.positional[0],
                                    typed(word@, floats@),
                                ).args);
                            }
                        },
                        None => {
                            return Err(ReaderError::UnknownArgument(word.clone()));
                        },
                    }
                },
            }
            i += 1;
        }
        Ok(ArgMap { values: reader.args })
    }
}

/// `bound` leaves the current argument as it is.
pub proof fn lemma_bound_keeps(reader: Reader, bindings: Seq<Seq<char>>)
    ensures
        reader.bound(bindings).current == reader.current,
    decreases bindings.len(),
{
    if bindings.len() > 0 {
        lemma_bound_keeps(reader, bindings.drop_last());
    }
}

/// `bound_with_required` leaves the current argument as it is.
pub proof fn lemma_bound_with_required_keeps(reader: Reader, bindings: Seq<Seq<char>>)
    ensures
        reader.bound_with_required(bindings).current == reader.current,
    decreases bindings.len(),
{
    if bindings.len() > 0 {
        lemma_bound_with_required_keeps(reader, bindings.drop_last());
    }
}

} // verus!
