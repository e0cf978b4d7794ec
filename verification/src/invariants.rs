//! What holds of every element that the parser hands back, whatever the
//! line.

use crate::header::plain;
use crate::machine::{class_of, CharClass, ParseState, Scan};
use crate::parser::parse;
use crate::tags::{header_tag, leading_name, lemma_name_len};
use vstd::prelude::*;

verus! {

/// What holds of the machine after it has consumed the characters `read`
/// of a line: no class in its list and no key of its attributes is empty;
/// its name is the leading name of `read`; once the name has ended, the line
/// has fallen back to literal text exactly if the name is not recognized;
/// and where it has fallen back, its text is `read` and it has no id, no
/// class and no attribute.
spec fn sound(m: Scan, read: Seq<char>, recognized: bool) -> bool {
    &&& forall|i: int| 0 <= i < m.classes.len() ==> (#[trigger] m.classes[i]).len() > 0
    &&& forall|i: int| 0 <= i < m.attributes.len() ==> (#[trigger] m.attributes[i]).0.len() > 0
    &&& plain(m.name)
    &&& m.name.len() <= read.len()
    &&& m.name == read.take(m.name.len() as int)
    &&& if m.state == ParseState::TagName {
        m.name.len() == read.len() && !m.text_only
    } else {
        m.name.len() < read.len() && class_of(read[m.name.len() as int]) != CharClass::Ordinary
            && m.text_only == !recognized
    }
    &&& m.text_only ==> m.state == ParseState::Text && m.text == read
    &&& m.state == ParseState::TagName || m.text_only ==> m.id.len() == 0 && m.class.len() == 0
        && m.classes.len() == 0 && m.attributes.len() == 0
}

/// One step keeps the machine sound.
proof fn lemma_sound_step(m: Scan, read: Seq<char>, c: char, recognized: bool)
    requires
        sound(m, read, recognized),
        m.feed(c, recognized) is Ok,
    ensures
        sound(m.feed(c, recognized).unwrap(), read.push(c), recognized),
{
    let next = m.feed(c, recognized).unwrap();
    let longer = read.push(c);
    let n = m.name.len() as int;
    assert(longer.take(n) == read.take(n));
    if m.state == ParseState::TagName {
        assert(read.take(n) == read);
        if class_of(c) == CharClass::Ordinary {
            assert(next.name == m.name.push(c));
            assert(longer.take(n + 1) == longer);
            assert forall|i: int| 0 <= i < next.name.len() implies class_of(
                #[trigger] next.name[i],
            ) == CharClass::Ordinary by {
                if i < n {
                    assert(next.name[i] == m.name[i]);
                }
            }
        } else {
            assert(longer[n] == c);
        }
    } else {
        assert(longer[n] == read[n]);
        if m.text_only {
            assert(next.text == m.text.push(c));
        }
    }
    assert forall|i: int| 0 <= i < next.classes.len() implies (#[trigger] next.classes[i]).len()
        > 0 by {
        if i < m.classes.len() {
            assert(next.classes[i] == m.classes[i]);
        }
    }
    assert forall|i: int| 0 <= i < next.attributes.len() implies (
    #[trigger] next.attributes[i]).0.len() > 0 by {
        if i < m.attributes.len() {
            assert(next.attributes[i] == m.attributes[i]);
        }
    }
}

/// A run keeps the machine sound.
proof fn lemma_sound_run(m: Scan, read: Seq<char>, s: Seq<char>, recognized: bool, at: nat)
    requires
        sound(m, read, recognized),
        m.run(s, recognized, at) is Ok,
    ensures
        sound(m.run(s, recognized, at)->Ok_0, read + s, recognized),
    decreases s.len(),
{
    if s.len() == 0 {
        assert(read + s == read);
    } else {
        lemma_sound_step(m, read, s[0], recognized);
        let next = m.feed(s[0], recognized).unwrap();
        lemma_sound_run(next, read.push(s[0]), s.skip(1), recognized, at + 1);
        assert(read.push(s[0]) + s.skip(1) == read + s);
    }
}

/// Every element that the parser hands back is well formed, stands at the
/// depth and on the line that were given, and has for its tag the leading
/// name of its line, or `div`. It is literal text exactly when its tag was
/// not recognized, and literal text holds its whole line and nothing else.
pub proof fn lemma_parsed_node(line: Seq<char>, recognized: bool, depth: nat, line_no: nat)
    requires
        parse(line, recognized, depth, line_no) matches Ok(Some(_)),
    ensures
        ({
            let node = parse(line, recognized, depth, line_no)->Ok_0->Some_0;
            &&& node.well_formed()
            &&& node.depth == depth
            &&& node.source_line == line_no
            &&& node.tag == header_tag(line)
            &&& node.is_text_only == !recognized
            &&& node.is_text_only ==> node.text == line && node.id is None
                && node.classes.len() == 0 && node.attributes.len() == 0
        }),
{
    let start = Scan::start();
    let empty = Seq::<char>::empty();
    assert(empty.take(0) == start.name);
    assert(sound(start, empty, recognized));
    lemma_sound_run(start, empty, line, recognized, 0);
    assert(empty + line == line);
    let end = start.run(line, recognized, 0)->Ok_0;
    let node = parse(line, recognized, depth, line_no)->Ok_0->Some_0;
    assert forall|j: int| 0 <= j < end.name.len() implies class_of(#[trigger] line[j])
        == CharClass::Ordinary by {
        assert(line[j] == end.name[j]);
    }
    lemma_name_len(line, end.name.len() as int);
    assert(end.name == leading_name(line));
    assert forall|i: int| 0 <= i < node.classes.len() implies (#[trigger] node.classes[i]).len()
        > 0 by {
        if i < end.classes.len() {
            assert(node.classes[i] == end.classes[i]);
        }
    }
}

} // verus!
