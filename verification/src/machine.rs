//! The header grammar as a state machine: which state follows which, and
//! what each character does to the header that is being collected.
//!
//! [`decide`] is the transition table. Everything else in this module says
//! what a run of the table over a whole line amounts to.

use vstd::prelude::*;

verus! {

/// Where in a header the parser stands.
#[derive(Clone, Copy, Debug, PartialEq, Eq, Structural)]
pub enum ParseState {
    TagName,
    Id,
    Class,
    AttrKey,
    AttrValOpen,
    AttrVal,
    AttrValClose,
    PostAttr,
    Text,
}

/// The classes of characters that the grammar tells apart.
#[derive(Clone, Copy, Debug, PartialEq, Eq, Structural)]
pub enum CharClass {
    Hash,
    Dot,
    OpenParen,
    CloseParen,
    Equals,
    Quote,
    Comma,
    Space,
    Ordinary,
}

/// What consuming one character does to the collected header.
#[derive(Clone, Copy, Debug, PartialEq, Eq, Structural)]
pub enum Action {
    /// The character only moves the machine on.
    Skip,
    /// The character joins the token that the current state collects.
    Append,
    /// The pending class joins the class list.
    CloseClass,
    /// The pending key becomes a shorthand attribute, its own value.
    EmitFlag,
    /// The pending key and value become an attribute.
    EmitPair,
    /// The line is no header after all: what was read of it, with this
    /// character, becomes literal text.
    Fallback,
}

/// The ways in which a line can fail to be a header.
#[derive(Clone, Copy, Debug, PartialEq, Eq, Structural)]
pub enum ErrorKind {
    /// A delimiter stands where the grammar has no place for it.
    Misplaced,
    /// An id, a class or an attribute key ends before it has a character.
    EmptyToken,
    /// The line gives its element a second id.
    DuplicateId,
    /// The line ends inside an attribute list or an open class.
    Unterminated,
}

/// The next state and the action that one character selects.
#[derive(Clone, Copy, Debug, PartialEq, Eq, Structural)]
pub struct Step {
    pub next: ParseState,
    pub action: Action,
}

/// What the table needs to know of the header collected so far.
#[derive(Clone, Copy, Debug, PartialEq, Eq, Structural)]
pub struct Guard {
    /// The tag name is a recognized one.
    pub recognized: bool,
    /// No character of an id has been read.
    pub id_empty: bool,
    /// The pending class has no character.
    pub class_empty: bool,
    /// The pending attribute key has no character.
    pub key_empty: bool,
}

/// The class of a character.
pub open spec fn class_of(c: char) -> CharClass {
    if c == '#' {
        CharClass::Hash
    } else if c == '.' {
        CharClass::Dot
    } else if c == '(' {
        CharClass::OpenParen
    } else if c == ')' {
        CharClass::CloseParen
    } else if c == '=' {
        CharClass::Equals
    } else if c == '\'' || c == '"' {
        CharClass::Quote
    } else if c == ',' {
        CharClass::Comma
    } else if c == ' ' {
        CharClass::Space
    } else {
        CharClass::Ordinary
    }
}

/// Computes the class of a character.
pub fn classify(c: char) -> (class: CharClass)
    ensures
        class == class_of(c),
{
    if c == '#' {
        CharClass::Hash
    } else if c == '.' {
        CharClass::Dot
    } else if c == '(' {
        CharClass::OpenParen
    } else if c == ')' {
        CharClass::CloseParen
    } else if c == '=' {
        CharClass::Equals
    } else if c == '\'' || c == '"' {
        CharClass::Quote
    } else if c == ',' {
        CharClass::Comma
    } else if c == ' ' {
        CharClass::Space
    } else {
        CharClass::Ordinary
    }
}

/// A step that moves to `next` without storing the character.
pub open spec fn go(next: ParseState) -> Result<Step, ErrorKind> {
    Ok(Step { next, action: Action::Skip })
}

/// A step that moves to `next` and performs `action`.
pub open spec fn act(next: ParseState, action: Action) -> Result<Step, ErrorKind> {
    Ok(Step { next, action })
}

/// Leaving the tag name: on to `next` where the name is recognized, else
/// the line falls back to literal text.
pub open spec fn leave_tag(next: ParseState, guard: Guard) -> Result<Step, ErrorKind> {
    if guard.recognized {
        go(next)
    } else {
        act(ParseState::Text, Action::Fallback)
    }
}

/// `ok` where the token that ends here has a character, else the
/// empty-token error.
pub open spec fn nonempty(empty: bool, ok: Result<Step, ErrorKind>) -> Result<Step, ErrorKind> {
    if empty {
        Err(ErrorKind::EmptyToken)
    } else {
        ok
    }
}

/// The transition table: the step that a character of class `class` selects
/// in state `state`, or the error that it raises there.
pub open spec fn decide_spec(state: ParseState, class: CharClass, guard: Guard) -> Result<
    Step,
    ErrorKind,
> {
    match state {
        ParseState::TagName => match class {
            CharClass::Hash => leave_tag(ParseState::Id, guard),
            CharClass::Dot => leave_tag(ParseState::Class, guard),
            CharClass::OpenParen => leave_tag(ParseState::AttrKey, guard),
            CharClass::Space => leave_tag(ParseState::Text, guard),
            CharClass::CloseParen | CharClass::Quote | CharClass::Comma => leave_tag(
                ParseState::Text,
                guard,
            ),
            CharClass::Equals => Err(ErrorKind::Misplaced),
            CharClass::Ordinary => act(ParseState::TagName, Action::Append),
        },
        ParseState::Id => match class {
            CharClass::Hash => Err(ErrorKind::DuplicateId),
            CharClass::Dot => nonempty(guard.id_empty, go(ParseState::Class)),
            CharClass::OpenParen => nonempty(guard.id_empty, go(ParseState::AttrKey)),
            CharClass::Space => nonempty(guard.id_empty, go(ParseState::Text)),
            CharClass::Ordinary => act(ParseState::Id, Action::Append),
            _ => Err(ErrorKind::Misplaced),
        },
        ParseState::Class => match class {
            CharClass::Hash | CharClass::Dot => nonempty(
                guard.class_empty,
                act(ParseState::Class, Action::CloseClass),
            ),
            CharClass::OpenParen => nonempty(
                guard.class_empty,
                act(ParseState::AttrKey, Action::CloseClass),
            ),
            CharClass::Space => nonempty(
                guard.class_empty,
                act(ParseState::Text, Action::CloseClass),
            ),
            CharClass::Ordinary => act(ParseState::Class, Action::Append),
            _ => Err(ErrorKind::Misplaced),
        },
        ParseState::AttrKey => match class {
            CharClass::CloseParen => if guard.key_empty {
                go(ParseState::PostAttr)
            } else {
                act(ParseState::PostAttr, Action::EmitFlag)
            },
            CharClass::Equals => nonempty(guard.key_empty, go(ParseState::AttrValOpen)),
            CharClass::Comma => nonempty(
                guard.key_empty,
                act(ParseState::AttrKey, Action::EmitFlag),
            ),
            CharClass::Ordinary => act(ParseState::AttrKey, Action::Append),
            _ => Err(ErrorKind::Misplaced),
        },
        ParseState::AttrValOpen => match class {
            CharClass::Quote | CharClass::Ordinary => go(ParseState::AttrVal),
            _ => Err(ErrorKind::Misplaced),
        },
        ParseState::AttrVal => match class {
            CharClass::Quote => nonempty(
                guard.key_empty,
                act(ParseState::AttrValClose, Action::EmitPair),
            ),
            CharClass::CloseParen | CharClass::Equals | CharClass::Comma => Err(
                ErrorKind::Misplaced,
            ),
            _ => act(ParseState::AttrVal, Action::Append),
        },
        ParseState::AttrValClose => match class {
            CharClass::CloseParen => go(ParseState::PostAttr),
            CharClass::Comma => go(ParseState::AttrKey),
            CharClass::Space => go(ParseState::Text),
            CharClass::Ordinary => go(ParseState::AttrValOpen),
            _ => Err(ErrorKind::Misplaced),
        },
        ParseState::PostAttr => match class {
            CharClass::Hash => if guard.id_empty {
                go(ParseState::Id)
            } else {
                Err(ErrorKind::DuplicateId)
            },
            CharClass::Dot => go(ParseState::Class),
            CharClass::Space => go(ParseState::Text),
            _ => Err(ErrorKind::Misplaced),
        },
        ParseState::Text => act(ParseState::Text, Action::Append),
    }
}

/// Looks the step up in the transition table.
pub fn decide(state: ParseState, class: CharClass, guard: Guard) -> (r: Result<Step, ErrorKind>)
    ensures
        r == decide_spec(state, class, guard),
{
    let misplaced: Result<Step, ErrorKind> = Err(ErrorKind::Misplaced);
    let empty: Result<Step, ErrorKind> = Err(ErrorKind::EmptyToken);
    let twice: Result<Step, ErrorKind> = Err(ErrorKind::DuplicateId);
    match state {
        ParseState::TagName => {
            let fallback = Ok(Step { next: ParseState::Text, action: Action::Fallback });
            match class {
                CharClass::Hash => if guard.recognized {
                    Ok(Step { next: ParseState::Id, action: Action::Skip })
                } else {
                    fallback
                },
                CharClass::Dot => if guard.recognized {
                    Ok(Step { next: ParseState::Class, action: Action::Skip })
                } else {
                    fallback
                },
                CharClass::OpenParen => if guard.recognized {
                    Ok(Step { next: ParseState::AttrKey, action: Action::Skip })
                } else {
                    fallback
                },
                CharClass::Space | CharClass::CloseParen | CharClass::Quote | CharClass::Comma => if guard.recognized {
                    Ok(Step { next: ParseState::Text, action: Action::Skip })
                } else {
                    fallback
                },
                CharClass::Equals => misplaced,
                CharClass::Ordinary => Ok(
                    Step { next: ParseState::TagName, action: Action::Append },
                ),
            }
        },
        ParseState::Id => match class {
            CharClass::Hash => twice,
            CharClass::Dot => if guard.id_empty {
                empty
            } else {
                Ok(Step { next: ParseState::Class, action: Action::Skip })
            },
            CharClass::OpenParen => if guard.id_empty {
                empty
            } else {
                Ok(Step { next: ParseState::AttrKey, action: Action::Skip })
            },
            CharClass::Space => if guard.id_empty {
                empty
            } else {
                Ok(Step { next: ParseState::Text, action: Action::Skip })
            },
            CharClass::Ordinary => Ok(Step { next: ParseState::Id, action: Action::Append }),
            _ => misplaced,
        },
        ParseState::Class => match class {
            CharClass::Hash | CharClass::Dot => if guard.class_empty {
                empty
            } else {
                Ok(Step { next: ParseState::Class, action: Action::CloseClass })
            },
            CharClass::OpenParen => if guard.class_empty {
                empty
            } else {
                Ok(Step { next: ParseState::AttrKey, action: Action::CloseClass })
            },
            CharClass::Space => if guard.class_empty {
                empty
            } else {
                Ok(Step { next: ParseState::Text, action: Action::CloseClass })
            },
            CharClass::Ordinary => Ok(Step { next: ParseState::Class, action: Action::Append }),
            _ => misplaced,
        },
        ParseState::AttrKey => match class {
            CharClass::CloseParen => if guard.key_empty {
                Ok(Step { next: ParseState::PostAttr, action: Action::Skip })
            } else {
                Ok(Step { next: ParseState::PostAttr, action: Action::EmitFlag })
            },
            CharClass::Equals => if guard.key_empty {
                empty
            } else {
                Ok(Step { next: ParseState::AttrValOpen, action: Action::Skip })
            },
            CharClass::Comma => if guard.key_empty {
                empty
            } else {
                Ok(Step { next: ParseState::AttrKey, action: Action::EmitFlag })
            },
            CharClass::Ordinary => Ok(Step { next: ParseState::AttrKey, action: Action::Append }),
            _ => misplaced,
        },
        ParseState::AttrValOpen => match class {
            CharClass::Quote | CharClass::Ordinary => Ok(
                Step { next: ParseState::AttrVal, action: Action::Skip },
            ),
            _ => misplaced,
        },
        ParseState::AttrVal => match class {
            CharClass::Quote => if guard.key_empty {
                empty
            } else {
                Ok(Step { next: ParseState::AttrValClose, action: Action::EmitPair })
            },
            CharClass::CloseParen | CharClass::Equals | CharClass::Comma => misplaced,
            _ => Ok(Step { next: ParseState::AttrVal, action: Action::Append }),
        },
        ParseState::AttrValClose => match class {
            CharClass::CloseParen => Ok(Step { next: ParseState::PostAttr, action: Action::Skip }),
            CharClass::Comma => Ok(Step { next: ParseState::AttrKey, action: Action::Skip }),
            CharClass::Space => Ok(Step { next: ParseState::Text, action: Action::Skip }),
            CharClass::Ordinary => Ok(
                Step { next: ParseState::AttrValOpen, action: Action::Skip },
            ),
            _ => misplaced,
        },
        ParseState::PostAttr => match class {
            CharClass::Hash => if guard.id_empty {
                Ok(Step { next: ParseState::Id, action: Action::Skip })
            } else {
                twice
            },
            CharClass::Dot => Ok(Step { next: ParseState::Class, action: Action::Skip }),
            CharClass::Space => Ok(Step { next: ParseState::Text, action: Action::Skip }),
            _ => misplaced,
        },
        ParseState::Text => Ok(Step { next: ParseState::Text, action: Action::Append }),
    }
}

/// The header collected so far, and the state of the machine.
#[verifier::ext_equal]
pub struct Scan {
    pub state: ParseState,
    pub name: Seq<char>,
    pub id: Seq<char>,
    pub class: Seq<char>,
    pub classes: Seq<Seq<char>>,
    pub key: Seq<char>,
    pub value: Seq<char>,
    pub attributes: Seq<(Seq<char>, Seq<char>)>,
    pub text: Seq<char>,
    pub text_only: bool,
}

/// Where and why a line stopped being a header.
pub struct Failure {
    pub kind: ErrorKind,
    /// How many characters of the line were consumed before the one that
    /// failed; the length of the line where it is the line's end that fails.
    pub position: nat,
    /// The state in which the machine failed.
    pub state: ParseState,
    /// The character that failed, if it was not the end of the line.
    pub ch: Option<char>,
}

/// The tag that an empty tag name stands for.
pub open spec fn default_tag() -> Seq<char> {
    "div"@
}

/// The name of the line that emits no node.
pub open spec fn doctype_tag() -> Seq<char> {
    "doctype"@
}

/// The tag that a written name stands for: itself, or `div` where nothing
/// was written.
pub open spec fn effective_tag(name: Seq<char>) -> Seq<char> {
    if name.len() == 0 {
        default_tag()
    } else {
        name
    }
}

impl Scan {
    /// The machine before the first character of a line.
    pub open spec fn start() -> Scan {
        Scan {
            state: ParseState::TagName,
            name: Seq::empty(),
            id: Seq::empty(),
            class: Seq::empty(),
            classes: Seq::empty(),
            key: Seq::empty(),
            value: Seq::empty(),
            attributes: Seq::empty(),
            text: Seq::empty(),
            text_only: false,
        }
    }

    /// What the table is told of this machine.
    pub open spec fn guard(self, recognized: bool) -> Guard {
        Guard {
            recognized,
            id_empty: self.id.len() == 0,
            class_empty: self.class.len() == 0,
            key_empty: self.key.len() == 0,
        }
    }

    /// The machine with `c` appended to the token that its state collects.
    pub open spec fn append(self, c: char) -> Scan {
        match self.state {
            ParseState::TagName => Scan { name: self.name.push(c), ..self },
            ParseState::Id => Scan { id: self.id.push(c), ..self },
            ParseState::Class => Scan { class: self.class.push(c), ..self },
            ParseState::AttrKey => Scan { key: self.key.push(c), ..self },
            ParseState::AttrVal => Scan { value: self.value.push(c), ..self },
            ParseState::Text => Scan { text: self.text.push(c), ..self },
            _ => self,
        }
    }

    /// The machine after `step`, which the character `c` selected.
    pub open spec fn apply(self, c: char, step: Step) -> Scan {
        let done = match step.action {
            Action::Skip => self,
            Action::Append => self.append(c),
            Action::CloseClass => Scan {
                classes: self.classes.push(self.class),
                class: Seq::empty(),
                ..self
            },
            Action::EmitFlag => Scan {
                attributes: self.attributes.push((self.key, self.key)),
                key: Seq::empty(),
                ..self
            },
            Action::EmitPair => Scan {
                attributes: self.attributes.push((self.key, self.value)),
                key: Seq::empty(),
                value: Seq::empty(),
                ..self
            },
            Action::Fallback => Scan { text: self.name.push(c), text_only: true, ..self },
        };
        Scan { state: step.next, ..done }
    }

    /// The machine after the character `c`, or the error that `c` raises.
    pub open spec fn feed(self, c: char, recognized: bool) -> Result<Scan, ErrorKind> {
        match decide_spec(self.state, class_of(c), self.guard(recognized)) {
            Ok(step) => Ok(self.apply(c, step)),
            Err(kind) => Err(kind),
        }
    }

    /// The machine after the characters `s`, of which the first is the
    /// `at`-th of its line, or the first failure among them.
    pub open spec fn run(self, s: Seq<char>, recognized: bool, at: nat) -> Result<Scan, Failure>
        decreases s.len(),
    {
        if s.len() == 0 {
            Ok(self)
        } else {
            match self.feed(s[0], recognized) {
                Ok(next) => next.run(s.skip(1), recognized, at + 1),
                Err(kind) => Err(
                    Failure { kind, position: at, state: self.state, ch: Some(s[0]) },
                ),
            }
        }
    }

    /// The pairs of state and character that a run over `s` consumes, the
    /// failing one included.
    pub open spec fn consumed(self, s: Seq<char>, recognized: bool) -> Seq<(ParseState, char)>
        decreases s.len(),
    {
        if s.len() == 0 {
            Seq::empty()
        } else {
            let here = seq![(self.state, s[0])];
            match self.feed(s[0], recognized) {
                Ok(next) => here + next.consumed(s.skip(1), recognized),
                Err(_) => here,
            }
        }
    }

    /// Whether the line may end in this state.
    pub open spec fn may_end(self) -> bool {
        match self.state {
            ParseState::Class => self.class.len() > 0,
            ParseState::AttrKey | ParseState::AttrValOpen | ParseState::AttrVal => false,
            _ => true,
        }
    }

    /// The class list at the end of the line: a pending class joins it.
    pub open spec fn final_classes(self) -> Seq<Seq<char>> {
        if self.state == ParseState::Class {
            self.classes.push(self.class)
        } else {
            self.classes
        }
    }
}

} // verus!
