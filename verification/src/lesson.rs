use vstd::prelude::*;

verus! {

/// A titled block of practice text. The first line of the text is the title,
/// every further line is one line to type.
#[derive(Debug, Clone)]
pub struct Lesson {
    text: String,
    id: String,
}

/// What a lesson is, as plain sequences of characters.
pub ghost struct LessonView {
    pub id: Seq<char>,
    pub text: Seq<char>,
}

impl View for Lesson {
    type V = LessonView;

    closed spec fn view(&self) -> LessonView {
        LessonView { id: self.id@, text: self.text@ }
    }
}

/// Number of characters that stand before the first line feed of `text`
/// (all of them, if it holds none).
pub open spec fn first_line_len(text: Seq<char>) -> nat
    decreases text.len(),
{
    if text.len() == 0 || text[0] == '\n' {
        0
    } else {
        1 + first_line_len(text.drop_first())
    }
}

/// The first line of `text`, given its length up to the line feed: a carriage
/// return directly before the line feed belongs to the line break.
pub open spec fn first_line(text: Seq<char>, len: nat) -> Seq<char> {
    if 0 < len < text.len() && text[len - 1] == '\r' {
        text.take(len - 1)
    } else {
        text.take(len as int)
    }
}

/// The lines of a text. Lines end at a line feed; the last line may go without
/// one, so a text that ends in a line feed has no empty line after it.
pub open spec fn text_lines(text: Seq<char>) -> Seq<Seq<char>>
    decreases text.len(),
{
    if text.len() == 0 {
        Seq::empty()
    } else {
        let len = first_line_len(text);
        let line = first_line(text, len);
        if len < text.len() {
            seq![line] + text_lines(text.skip(len as int + 1))
        } else {
            seq![line]
        }
    }
}

/// The title of a lesson text: its first line, or nothing where the text is empty.
pub open spec fn title_of(text: Seq<char>) -> Seq<char> {
    if text_lines(text).len() > 0 {
        text_lines(text)[0]
    } else {
        Seq::empty()
    }
}

/// The lines to type: all lines after the title.
pub open spec fn content_lines(text: Seq<char>) -> Seq<Seq<char>> {
    if text_lines(text).len() > 0 {
        text_lines(text).drop_first()
    } else {
        Seq::empty()
    }
}

/// The characters of each string of a sequence.
pub open spec fn line_views(lines: Seq<String>) -> Seq<Seq<char>> {
    lines.map_values(|line: String| line@)
}

/// Scanning past `k` characters that are no line feed leaves the rest of the line.
proof fn lemma_first_line_len_skip(text: Seq<char>, k: int)
    requires
        0 <= k <= text.len(),
        forall|j: int| 0 <= j < k ==> text[j] != '\n',
    ensures
        first_line_len(text) == k + first_line_len(text.skip(k)),
    decreases k,
{
    if k == 0 {
        assert(text.skip(0) =~= text);
    } else {
        let rest = text.drop_first();
        assert(text[0] != '\n');
        assert forall|j: int| 0 <= j < k - 1 implies rest[j] != '\n' by {
            assert(rest[j] == text[j + 1]);
        }
        lemma_first_line_len_skip(rest, k - 1);
        assert(rest.skip(k - 1) =~= text.skip(k));
    }
}

/// The characters of a string, one by one.
pub fn chars_of(text: &str) -> (chars: Vec<char>)
    ensures
        chars@ == text@,
{
    let mut chars: Vec<char> = Vec::new();
    for c in it: text.chars()
        invariant
            it.seq() == text@,
            chars@ == it.seq().take(it.index() as int),
    {
        chars.push(c);
    }
    chars
}

impl Lesson {
    /// A lesson with the given text, known under the given id.
    pub fn new(text: String, id: String) -> (lesson: Lesson)
        ensures
            lesson@.text == text@,
            lesson@.id == id@,
    {
        Lesson { text, id }
    }

    /// The identifier by which the lesson is ordered and found.
    pub fn id(&self) -> (id: &str)
        ensures
            id@ == self@.id,
    {
        self.id.as_str()
    }

    /// The whole text, title line included.
    pub fn text(&self) -> (text: &str)
        ensures
            text@ == self@.text,
    {
        self.text.as_str()
    }

    /// The text cut into its lines, the title first.
    pub fn lines(&self) -> (lines: Vec<String>)
        ensures
            line_views(lines@) == text_lines(self@.text),
    {
        let text = self.text.as_str();
        let chars = chars_of(text);
        let n = chars.len();
        let mut lines: Vec<String> = Vec::new();
        let mut pos: usize = 0;
        assert(text@.skip(0) =~= text@);
        while pos < n
            invariant
                n == chars@.len(),
                chars@ == text@,
                pos <= n,
                text_lines(text@) == line_views(lines@) + text_lines(text@.skip(pos as int)),
            decreases n - pos,
        {
            let mut end = pos;
            while end < n && chars[end] != '\n'
                invariant
                    n == chars@.len(),
                    pos <= end <= n,
                    forall|j: int| pos <= j < end ==> chars@[j] != '\n',
                decreases n - end,
            {
                end += 1;
            }
            let stop = if end < n && pos < end && chars[end - 1] == '\r' {
                end - 1
            } else {
                end
            };
            let line = text.substring_char(pos, stop).to_owned();
            let next = if end < n {
                end + 1
            } else {
                end
            };
            proof {
                let rest = text@.skip(pos as int);
                let len = end - pos;
                assert forall|j: int| 0 <= j < len implies rest[j] != '\n' by {
                    assert(rest[j] == chars@[pos + j]);
                }
                lemma_first_line_len_skip(rest, len);
                assert(rest.skip(len) =~= text@.skip(end as int));
                assert(first_line_len(rest) == len);
                assert(line@ =~= first_line(rest, len as nat));
                if end < n {
                    assert(rest.skip(len + 1) =~= text@.skip(next as int));
                } else {
                    assert(text_lines(text@.skip(next as int)) =~= Seq::empty());
                }
                assert(line_views(lines@.push(line)) =~= line_views(lines@) + seq![line@]);
                assert(text_lines(rest) =~= seq![line@] + text_lines(text@.skip(next as int)));
            }
            lines.push(line);
            pos = next;
        }
        assert(text_lines(text@.skip(pos as int)) =~= Seq::empty());
        assert(line_views(lines@) + Seq::<Seq<char>>::empty() =~= line_views(lines@));
        lines
    }
}

/// What the name of every lesson file begins with.
pub open spec fn file_name_head() -> Seq<char> {
    "lesson_"@
}

/// The ending that the name of a lesson file may carry.
pub open spec fn file_name_tail() -> Seq<char> {
    ".txt"@
}

/// `text` begins with `part`.
pub open spec fn begins_with(text: Seq<char>, part: Seq<char>) -> bool {
    part.len() <= text.len() && text.take(part.len() as int) == part
}

/// `text` ends with `part`.
pub open spec fn ends_with(text: Seq<char>, part: Seq<char>) -> bool {
    part.len() <= text.len() && text.skip(text.len() - part.len()) == part
}

/// The lesson id that a file name carries: what follows the head, without
/// the tail where the name has one. A name without the head is no lesson's.
pub open spec fn id_in_file_name(name: Seq<char>) -> Option<Seq<char>> {
    if begins_with(name, file_name_head()) {
        let rest = name.skip(file_name_head().len() as int);
        if ends_with(rest, file_name_tail()) {
            Some(rest.take(rest.len() - file_name_tail().len()))
        } else {
            Some(rest)
        }
    } else {
        None
    }
}

/// Whether `part` stands in `text` at position `at`.
fn holds_at(text: &Vec<char>, at: usize, part: &Vec<char>) -> (same: bool)
    requires
        at + part@.len() <= text@.len(),
    ensures
        same == (text@.subrange(at as int, at + part@.len()) == part@),
{
    let n = part.len();
    let total = text.len();
    let mut i: usize = 0;
    while i < n
        invariant
            n == part@.len(),
            total == text@.len(),
            at + n <= total,
            i <= n,
            forall|j: int| 0 <= j < i ==> text@[at + j] == part@[j],
        decreases n - i,
    {
        if text[at + i] != part[i] {
            assert(text@.subrange(at as int, at + n)[i as int] != part@[i as int]);
            return false;
        }
        i += 1;
    }
    assert(text@.subrange(at as int, at + n) =~= part@);
    true
}

/// Reads the lesson id off a file name: `lesson_02b.txt` is the file of
/// lesson `02b`. Nothing is read off the name of any other file.
pub fn lesson_id_of_file_name(name: &str) -> (id: Option<String>)
    ensures
        match id {
            Some(found) => id_in_file_name(name@) == Some(found@),
            None => id_in_file_name(name@) is None,
        },
{
    let chars = chars_of(name);
    let head = chars_of("lesson_");
    let tail = chars_of(".txt");
    if head.len() > chars.len() {
        return None;
    }
    assert(chars@.subrange(0, head@.len() as int) =~= chars@.take(head@.len() as int));
    if !holds_at(&chars, 0, &head) {
        return None;
    }
    let from = head.len();
    let end = chars.len();
    let ghost rest = name@.skip(from as int);
    let to = if end - from >= tail.len() {
        assert(chars@.subrange(end - tail@.len(), end as int) =~= rest.skip(
            rest.len() - tail@.len(),
        ));
        if holds_at(&chars, end - tail.len(), &tail) {
            end - tail.len()
        } else {
            end
        }
    } else {
        end
    };
    let found = name.substring_char(from, to).to_owned();
    proof {
        if to < end {
            assert(found@ =~= rest.take(rest.len() - tail@.len()));
        } else {
            assert(found@ =~= rest);
        }
    }
    Some(found)
}

} // verus!
