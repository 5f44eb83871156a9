use vstd::prelude::*;
use crate::text::{text_eq, trim, trimmed, to_lowercase, lowercase_of, texts};

verus! {

/// The colours the reader can be configured with.
#[derive(Clone, Copy, PartialEq, Eq, Debug)]
pub enum ColorName {
    Red,
    Yellow,
    Blue,
    Green,
    Gray,
    Magenta,
    Cyan,
    White,
}

/// The colour a lower-case name stands for; an unknown name is white.
pub open spec fn color_named(name: Seq<char>) -> ColorName {
    if name == "red"@ {
        ColorName::Red
    } else if name == "yellow"@ {
        ColorName::Yellow
    } else if name == "blue"@ {
        ColorName::Blue
    } else if name == "green"@ {
        ColorName::Green
    } else if name == "gray"@ {
        ColorName::Gray
    } else if name == "magenta"@ {
        ColorName::Magenta
    } else if name == "cyan"@ {
        ColorName::Cyan
    } else {
        ColorName::White
    }
}

/// The colour a lower-case name stands for; an unknown name is white.
pub fn color_from_lowercase(name: &str) -> (c: ColorName)
    ensures
        c == color_named(name@),
{
    if text_eq(name, "red") {
        ColorName::Red
    } else if text_eq(name, "yellow") {
        ColorName::Yellow
    } else if text_eq(name, "blue") {
        ColorName::Blue
    } else if text_eq(name, "green") {
        ColorName::Green
    } else if text_eq(name, "gray") {
        ColorName::Gray
    } else if text_eq(name, "magenta") {
        ColorName::Magenta
    } else if text_eq(name, "cyan") {
        ColorName::Cyan
    } else {
        ColorName::White
    }
}

/// The colour a name stands for, whatever the case of its letters; an
/// unknown name is white.
pub fn parse_color(color_str: &str) -> (c: ColorName)
    ensures
        c == color_named(lowercase_of(color_str@)),
{
    let lower = to_lowercase(color_str);
    color_from_lowercase(lower.as_str())
}

/// The reader's settings, as the configuration file gives them. The
/// reading speeds are kept as the texts the file gives for them, in the
/// order of the file: a speed is the last of its texts that reads as a
/// number, and its default when none does.
pub struct Config {
    pub wpm_values: Vec<String>,
    pub slow_wpm_values: Vec<String>,
    pub fast_wpm_values: Vec<String>,
    pub h_color: ColorName,
    pub t_color: ColorName,
}

/// The settings as mathematical values.
pub struct ConfigModel {
    pub wpm_values: Seq<Seq<char>>,
    pub slow_wpm_values: Seq<Seq<char>>,
    pub fast_wpm_values: Seq<Seq<char>>,
    pub h_color: ColorName,
    pub t_color: ColorName,
}

impl Config {
    pub open spec fn model(&self) -> ConfigModel {
        ConfigModel {
            wpm_values: texts(self.wpm_values@),
            slow_wpm_values: texts(self.slow_wpm_values@),
            fast_wpm_values: texts(self.fast_wpm_values@),
            h_color: self.h_color,
            t_color: self.t_color,
        }
    }

    /// The settings when the file says nothing: red highlight, white text.
    pub fn defaults() -> (c: Config)
        ensures
            c.model() == default_config(),
    {
        let c = Config {
            wpm_values: Vec::new(),
            slow_wpm_values: Vec::new(),
            fast_wpm_values: Vec::new(),
            h_color: ColorName::Red,
            t_color: ColorName::White,
        };
        assert(c.model().wpm_values =~= Seq::<Seq<char>>::empty());
        assert(c.model().slow_wpm_values =~= Seq::<Seq<char>>::empty());
        assert(c.model().fast_wpm_values =~= Seq::<Seq<char>>::empty());
        c
    }
}

pub open spec fn default_config() -> ConfigModel {
    ConfigModel {
        wpm_values: Seq::empty(),
        slow_wpm_values: Seq::empty(),
        fast_wpm_values: Seq::empty(),
        h_color: ColorName::Red,
        t_color: ColorName::White,
    }
}

/// What one `key = value` setting does; an unknown key does nothing.
pub open spec fn apply_setting(m: ConfigModel, key: Seq<char>, value: Seq<char>) -> ConfigModel {
    if key == "wpm"@ {
        ConfigModel { wpm_values: m.wpm_values.push(value), ..m }
    } else if key == "slow_wpm"@ {
        ConfigModel { slow_wpm_values: m.slow_wpm_values.push(value), ..m }
    } else if key == "fast_wpm"@ {
        ConfigModel { fast_wpm_values: m.fast_wpm_values.push(value), ..m }
    } else if key == "highlight_color"@ {
        ConfigModel { h_color: color_named(lowercase_of(value)), ..m }
    } else if key == "text_color"@ {
        ConfigModel { t_color: color_named(lowercase_of(value)), ..m }
    } else {
        m
    }
}

/// How many times `c` occurs in `s`.
pub open spec fn count_char(s: Seq<char>, c: char) -> nat
    decreases s.len(),
{
    if s.len() == 0 {
        0
    } else {
        count_char(s.drop_last(), c) + if s.last() == c { 1nat } else { 0nat }
    }
}

/// The number of characters before the first `c` in `s`, or its length.
pub open spec fn span_before(s: Seq<char>, c: char) -> nat
    decreases s.len(),
{
    if s.len() == 0 || s[0] == c {
        0
    } else {
        1 + span_before(s.drop_first(), c)
    }
}

/// What one line of the configuration file does: a line with exactly one
/// `=` is a setting whose key and value are trimmed of white space; any
/// other line is ignored.
pub open spec fn apply_line(m: ConfigModel, line: Seq<char>) -> ConfigModel {
    if count_char(line, '=') == 1 {
        let i = span_before(line, '=') as int;
        apply_setting(m, trimmed(line.take(i)), trimmed(line.skip(i + 1)))
    } else {
        m
    }
}

pub open spec fn apply_lines(m: ConfigModel, lines: Seq<Seq<char>>) -> ConfigModel
    decreases lines.len(),
{
    if lines.len() == 0 {
        m
    } else {
        apply_lines(apply_line(m, lines[0]), lines.drop_first())
    }
}

/// A line without the `\r` of a `\r\n` ending.
pub open spec fn strip_cr(line: Seq<char>) -> Seq<char> {
    if line.len() > 0 && line.last() == '\r' { line.drop_last() } else { line }
}

/// The lines of a text, as `str::lines` gives them: split at each `\n`,
/// a `\r` before it dropped, and no empty line after a final `\n`.
pub open spec fn text_lines(s: Seq<char>) -> Seq<Seq<char>>
    decreases s.len(),
{
    if s.len() == 0 {
        Seq::empty()
    } else {
        let l = span_before(s, '\n') as int;
        if l < s.len() {
            seq![strip_cr(s.take(l))] + text_lines(s.skip(l + 1))
        } else {
            seq![s]
        }
    }
}

/// The settings that a configuration file's text gives.
pub open spec fn config_of(content: Seq<char>) -> ConfigModel {
    apply_lines(default_config(), text_lines(content))
}

proof fn lemma_span_before(s: Seq<char>, c: char, k: int)
    requires
        0 <= k <= s.len(),
        forall|j: int| 0 <= j < k ==> s[j] != c,
        k == s.len() || s[k] == c,
    ensures
        span_before(s, c) == k,
    decreases k,
{
    if k > 0 {
        lemma_span_before(s.drop_first(), c, k - 1);
    }
}

proof fn lemma_texts_push(v: Seq<String>, s: String)
    ensures
        texts(v.push(s)) == texts(v).push(s@),
{
    assert(texts(v.push(s)) =~= texts(v).push(s@));
}

fn apply_setting_exec(cfg: &mut Config, key: &str, value: &str)
    ensures
        final(cfg).model() == apply_setting(old(cfg).model(), key@, value@),
{
    if text_eq(key, "wpm") {
        let v = String::from_str(value);
        proof { lemma_texts_push(cfg.wpm_values@, v); }
        cfg.wpm_values.push(v);
    } else if text_eq(key, "slow_wpm") {
        let v = String::from_str(value);
        proof { lemma_texts_push(cfg.slow_wpm_values@, v); }
        cfg.slow_wpm_values.push(v);
    } else if text_eq(key, "fast_wpm") {
        let v = String::from_str(value);
        proof { lemma_texts_push(cfg.fast_wpm_values@, v); }
        cfg.fast_wpm_values.push(v);
    } else if text_eq(key, "highlight_color") {
        cfg.h_color = parse_color(value);
    } else if text_eq(key, "text_color") {
        cfg.t_color = parse_color(value);
    }
}

/// Applies one line of the configuration file to the settings.
pub fn apply_config_line(cfg: &mut Config, line: &str)
    ensures
        final(cfg).model() == apply_line(old(cfg).model(), line@),
{
    let n = line.unicode_len();
    let mut count: usize = 0;
    let mut first: usize = 0;
    let mut i: usize = 0;
    while i < n
        invariant
            n == line@.len(),
            i <= n,
            count == count_char(line@.take(i as int), '='),
            count <= i,
            count == 0 ==> forall|j: int| 0 <= j < i ==> line@[j] != '=',
            count > 0 ==> first == span_before(line@, '=') && first < n,
        decreases n - i,
    {
        let c = line.get_char(i);
        assert(line@.take(i + 1).drop_last() =~= line@.take(i as int));
        if c == '=' {
            if count == 0 {
                proof {
                    lemma_span_before(line@, '=', i as int);
                }
                first = i;
            }
            count = count + 1;
        }
        i = i + 1;
    }
    assert(line@.take(n as int) =~= line@);
    if count == 1 {
        let key = trim(line.substring_char(0, first));
        let value = trim(line.substring_char(first + 1, n));
        assert(line@.subrange(0, first as int) =~= line@.take(first as int));
        assert(line@.subrange(first + 1, n as int) =~= line@.skip(first + 1));
        apply_setting_exec(cfg, key, value);
    }
}

/// Reads the settings from the text of a configuration file: one
/// `key = value` per line, for the keys `wpm`, `slow_wpm`, `fast_wpm`,
/// `highlight_color` and `text_color`; a later setting of a key overrides
/// an earlier one.
pub fn parse_config(content: &str) -> (c: Config)
    ensures
        c.model() == config_of(content@),
{
    let n = content.unicode_len();
    let mut cfg = Config::defaults();
    let mut pos: usize = 0;
    assert(content@.skip(0) =~= content@);
    while pos < n
        invariant
            n == content@.len(),
            pos <= n,
            config_of(content@) == apply_lines(cfg.model(), text_lines(content@.skip(pos as int))),
        decreases n - pos,
    {
        let ghost rest = content@.skip(pos as int);
        let mut e = pos;
        while e < n && content.get_char(e) != '\n'
            invariant
                n == content@.len(),
                pos <= e <= n,
                rest == content@.skip(pos as int),
                forall|j: int| 0 <= j < e - pos ==> rest[j] != '\n',
            decreases n - e,
        {
            e = e + 1;
        }
        proof {
            lemma_span_before(rest, '\n', e - pos);
        }
        let line_end = if e < n && e > pos && content.get_char(e - 1) == '\r' { e - 1 } else { e };
        let line = content.substring_char(pos, line_end);
        proof {
            if e < n {
                assert(rest.take(e - pos) =~= content@.subrange(pos as int, e as int));
                if e > pos {
                    assert(rest.take(e - pos).drop_last() =~= content@.subrange(pos as int, e - 1));
                }
                assert(rest.skip(e - pos + 1) =~= content@.skip(e + 1));
            } else {
                assert(rest =~= content@.subrange(pos as int, n as int));
            }
        }
        let ghost before = cfg.model();
        apply_config_line(&mut cfg, line);
        let next = if e < n { e + 1 } else { n };
        proof {
            assert(rest.len() == n - pos);
            if e < n {
                let t = rest.take(e - pos);
                assert(t.len() == e - pos);
                if e > pos {
                    assert(t.last() == content@[e - 1]);
                }
                assert(line@ == strip_cr(t));
                assert(span_before(rest, '\n') == e - pos);
                let tl = text_lines(rest);
                assert(tl == seq![strip_cr(rest.take(e - pos))] + text_lines(rest.skip(e - pos + 1)));
                assert(tl[0] == line@);
                assert(tl.drop_first() =~= text_lines(content@.skip(next as int)));
            } else {
                assert(line@ == rest);
                assert(content@.skip(n as int) =~= Seq::<char>::empty());
                let tl = text_lines(rest);
                assert(tl == seq![rest]);
                assert(tl.drop_first() =~= Seq::<Seq<char>>::empty());
                assert(apply_lines(cfg.model(), Seq::<Seq<char>>::empty()) == cfg.model());
            }
        }
        pos = next;
    }
    cfg
}

/// The key and value of a setting line, when the line is one.
pub open spec fn setting_of(line: Seq<char>) -> Option<(Seq<char>, Seq<char>)> {
    if count_char(line, '=') == 1 {
        let i = span_before(line, '=') as int;
        Some((trimmed(line.take(i)), trimmed(line.skip(i + 1))))
    } else {
        None
    }
}

/// The values given to `key` by the lines, in their order.
pub open spec fn values_for(lines: Seq<Seq<char>>, key: Seq<char>) -> Seq<Seq<char>>
    decreases lines.len(),
{
    if lines.len() == 0 {
        Seq::empty()
    } else {
        let rest = values_for(lines.drop_first(), key);
        match setting_of(lines[0]) {
            Some((k, v)) => if k == key { seq![v] + rest } else { rest },
            None => rest,
        }
    }
}

proof fn reveal_keys()
    ensures
        "wpm"@ != "slow_wpm"@,
        "wpm"@ != "fast_wpm"@,
        "wpm"@ != "highlight_color"@,
        "wpm"@ != "text_color"@,
        "slow_wpm"@ != "fast_wpm"@,
        "slow_wpm"@ != "highlight_color"@,
        "slow_wpm"@ != "text_color"@,
        "fast_wpm"@ != "highlight_color"@,
        "fast_wpm"@ != "text_color"@,
        "highlight_color"@ != "text_color"@,
{
    reveal_strlit("wpm");
    reveal_strlit("slow_wpm");
    reveal_strlit("fast_wpm");
    reveal_strlit("highlight_color");
    reveal_strlit("text_color");
    assert("wpm"@.len() == 3);
    assert("slow_wpm"@.len() == 8);
    assert("fast_wpm"@.len() == 8);
    assert("highlight_color"@.len() == 15);
    assert("text_color"@.len() == 10);
    assert("slow_wpm"@[0] != "fast_wpm"@[0]);
}

proof fn lemma_apply_lines_push(m: ConfigModel, lines: Seq<Seq<char>>, line: Seq<char>)
    ensures
        apply_lines(m, lines.push(line)) == apply_line(apply_lines(m, lines), line),
    decreases lines.len(),
{
    if lines.len() > 0 {
        assert(lines.push(line)[0] == lines[0]);
        assert(lines.push(line).drop_first() =~= lines.drop_first().push(line));
        lemma_apply_lines_push(apply_line(m, lines[0]), lines.drop_first(), line);
    } else {
        assert(lines.push(line)[0] == line);
        assert(lines.push(line).drop_first() =~= Seq::<Seq<char>>::empty());
        assert(lines =~= Seq::<Seq<char>>::empty());
        assert(apply_lines(apply_line(m, line), Seq::<Seq<char>>::empty()) == apply_line(m, line));
    }
}

/// Each reading speed's texts are those its setting lines give, in the
/// order of the file, after those already known.
pub proof fn speeds_keep_file_order(m: ConfigModel, lines: Seq<Seq<char>>)
    ensures
        apply_lines(m, lines).wpm_values == m.wpm_values + values_for(lines, "wpm"@),
        apply_lines(m, lines).slow_wpm_values == m.slow_wpm_values + values_for(lines, "slow_wpm"@),
        apply_lines(m, lines).fast_wpm_values == m.fast_wpm_values + values_for(lines, "fast_wpm"@),
    decreases lines.len(),
{
    reveal_keys();
    if lines.len() > 0 {
        let m1 = apply_line(m, lines[0]);
        speeds_keep_file_order(m1, lines.drop_first());
        assert(m.wpm_values + values_for(lines, "wpm"@) =~= m1.wpm_values + values_for(lines.drop_first(), "wpm"@));
        assert(m.slow_wpm_values + values_for(lines, "slow_wpm"@) =~= m1.slow_wpm_values + values_for(lines.drop_first(), "slow_wpm"@));
        assert(m.fast_wpm_values + values_for(lines, "fast_wpm"@) =~= m1.fast_wpm_values + values_for(lines.drop_first(), "fast_wpm"@));
    } else {
        assert(m.wpm_values + values_for(lines, "wpm"@) =~= m.wpm_values);
        assert(m.slow_wpm_values + values_for(lines, "slow_wpm"@) =~= m.slow_wpm_values);
        assert(m.fast_wpm_values + values_for(lines, "fast_wpm"@) =~= m.fast_wpm_values);
    }
}

/// The last line that sets a colour decides it, whatever came before.
pub proof fn last_color_setting_wins(m: ConfigModel, lines: Seq<Seq<char>>, line: Seq<char>)
    requires
        setting_of(line) is Some,
    ensures
        ({
            let (key, value) = setting_of(line)->0;
            let r = apply_lines(m, lines.push(line));
            &&& key == "highlight_color"@ ==> r.h_color == color_named(lowercase_of(value))
            &&& key == "text_color"@ ==> r.t_color == color_named(lowercase_of(value))
        }),
{
    reveal_keys();
    lemma_apply_lines_push(m, lines, line);
}

/// A line that is no setting, or sets an unknown key, changes nothing.
pub proof fn other_lines_change_nothing(m: ConfigModel, line: Seq<char>)
    requires
        match setting_of(line) {
            Some((k, v)) => !(k == "wpm"@ || k == "slow_wpm"@ || k == "fast_wpm"@ || k == "highlight_color"@ || k
                == "text_color"@),
            None => true,
        },
    ensures
        apply_line(m, line) == m,
{
}

/// The lines of a text are its `\n`-separated pieces: a piece `a`
/// followed by `\n` is a line of its own, even when it is empty, with a
/// `\r` at its end dropped, and the lines of the rest follow it; a last
/// piece without `\n` is a line as it stands; an empty text has none.
pub proof fn lines_split_at_newlines(a: Seq<char>, b: Seq<char>)
    requires
        !a.contains('\n'),
    ensures
        text_lines(a + seq!['\n'] + b) == seq![
            if a.len() > 0 && a.last() == '\r' { a.drop_last() } else { a },
        ] + text_lines(b),
        a.len() > 0 ==> text_lines(a) == seq![a],
        text_lines(Seq::<char>::empty()) == Seq::<Seq<char>>::empty(),
{
    let t = a + seq!['\n'] + b;
    assert forall|j: int| 0 <= j < a.len() implies t[j] != '\n' by {
        assert(t[j] == a[j]);
    }
    lemma_span_before(t, '\n', a.len() as int);
    assert(t.take(a.len() as int) =~= a);
    assert(t.skip(a.len() as int + 1) =~= b);
    if a.len() > 0 {
        lemma_span_before(a, '\n', a.len() as int);
    }
}

/// A configuration text is applied line by line: the first line, then the
/// lines after its `\n`, so that a blank or malformed line never hides the
/// settings after it.
pub proof fn settings_apply_line_by_line(m: ConfigModel, a: Seq<char>, b: Seq<char>)
    requires
        !a.contains('\n'),
    ensures
        apply_lines(m, text_lines(a + seq!['\n'] + b)) == apply_lines(
            apply_line(m, if a.len() > 0 && a.last() == '\r' { a.drop_last() } else { a }),
            text_lines(b),
        ),
        count_char(a, '=') != 1 && !a.contains('\r') ==> apply_lines(m, text_lines(a + seq!['\n'] + b)) == apply_lines(
            m,
            text_lines(b),
        ),
{
    lines_split_at_newlines(a, b);
    let l = if a.len() > 0 && a.last() == '\r' { a.drop_last() } else { a };
    let ls = seq![l] + text_lines(b);
    assert(ls[0] == l);
    assert(ls.drop_first() =~= text_lines(b));
}

/// The seven colour names stand for their own colours, each a different
/// one, and any other name for white.
pub proof fn color_names_stand_for_their_colors(name: Seq<char>)
    ensures
        color_named("red"@) == ColorName::Red,
        color_named("yellow"@) == ColorName::Yellow,
        color_named("blue"@) == ColorName::Blue,
        color_named("green"@) == ColorName::Green,
        color_named("gray"@) == ColorName::Gray,
        color_named("magenta"@) == ColorName::Magenta,
        color_named("cyan"@) == ColorName::Cyan,
        !(name == "red"@ || name == "yellow"@ || name == "blue"@ || name == "green"@ || name == "gray"@ || name
            == "magenta"@ || name == "cyan"@) ==> color_named(name) == ColorName::White,
{
    reveal_strlit("red");
    reveal_strlit("yellow");
    reveal_strlit("blue");
    reveal_strlit("green");
    reveal_strlit("gray");
    reveal_strlit("magenta");
    reveal_strlit("cyan");
    assert("red"@.len() == 3 && "yellow"@.len() == 6 && "blue"@.len() == 4 && "green"@.len() == 5);
    assert("gray"@.len() == 4 && "magenta"@.len() == 7 && "cyan"@.len() == 4);
    assert("blue"@[0] != "gray"@[0] && "blue"@[0] != "cyan"@[0] && "gray"@[0] != "cyan"@[0]);
}

} // verus!
