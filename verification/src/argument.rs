//! One argument declaration inside a task heading, such as
//! `!port: u16 = 8080` or `--?verbose`: its names, its configuration
//! characters, its type, default values and value hint.

use vstd::prelude::*;
use crate::arg_type::typed_arg;
use crate::cli::{opt_view, value_hint_from_str, value_hint_named, ArgSpec, ArgView};
use crate::text::{
    char_views, chars_of, is_white_space, is_whitespace, lemma_index_of, split_chars, split_on,
    string_of_range, trim, trimmed_string, views, index_of, lemma_split_nonempty,
};

verus! {

/// The characters that configure an argument when they lead its name.
pub open spec fn is_config_char(c: char) -> bool {
    c == '-' || c == '!' || c == '?' || c == '$' || c == '*' || c == '^' || c == '%' || c == '~'
        || c == '_' || c == '=' || c == '#' || c == '@' || c == '.'
}

/// The number of configuration characters that lead `s`.
pub open spec fn config_len(s: Seq<char>) -> nat
    decreases s.len(),
{
    if s.len() > 0 && is_config_char(s[0]) {
        1 + config_len(s.drop_first())
    } else {
        0
    }
}

/// The leading configuration characters of `s`, and the name after them.
pub open spec fn split_config(s: Seq<char>) -> (Seq<char>, Seq<char>) {
    (s.take(config_len(s) as int), s.skip(config_len(s) as int))
}

/// The configuration characters before the first `-`, and the flag part
/// that starts there.
pub open spec fn split_flag(config: Seq<char>) -> (Seq<char>, Seq<char>) {
    match index_of(config, '-') {
        Some(i) => (config.take(i), config.skip(i)),
        None => (config, Seq::empty()),
    }
}

/// Whether `s` ends with `>`.
pub open spec fn ends_with_gt(s: Seq<char>) -> bool {
    s.len() > 0 && s.last() == '>'
}

/// A value name written as `<Name>`: the piece after `<`, trimmed, without
/// its closing `>`, trimmed again.
pub open spec fn value_name_of(piece: Seq<char>) -> Seq<char> {
    trim(trim(piece).drop_last())
}

/// `arg` after the value names `pieces[i..]`, as far as each ends with `>`;
/// each is added after the ones before.
pub open spec fn named_values(arg: ArgView, pieces: Seq<Seq<char>>, i: int) -> ArgView
    decreases pieces.len() - i,
{
    if 0 <= i < pieces.len() && ends_with_gt(trim(pieces[i])) {
        named_values(
            ArgView { value_names: arg.value_names.push(value_name_of(pieces[i])), ..arg },
            pieces,
            i + 1,
        )
    } else {
        arg
    }
}

/// `arg` with the value names that follow `<` in `name`, and the trimmed name
/// before the first `<`.
pub open spec fn value_named(arg: ArgView, name: Seq<char>) -> (ArgView, Seq<char>) {
    let pieces = split_on(name, '<');
    (named_values(arg, pieces, 1), trim(pieces[0]))
}

/// `arg` after one configuration character; `name` is the argument's name.
pub open spec fn configured(arg: ArgView, c: char, name: Seq<char>) -> ArgView {
    if c == '!' {
        ArgView { required: true, ..arg }
    } else if c == '?' {
        ArgView { required: false, ..arg }
    } else if c == '$' {
        ArgView { last: true, ..arg }
    } else if c == '*' {
        ArgView { trailing_var_arg: true, ..arg }
    } else if c == '^' {
        ArgView { exclusive: true, ..arg }
    } else if c == '%' {
        ArgView { global: true, ..arg }
    } else if c == '~' {
        ArgView { ignore_case: true, ..arg }
    } else if c == '_' {
        ArgView { allow_negative_numbers: true, ..arg }
    } else if c == '=' {
        ArgView { require_equals: true, ..arg }
    } else if c == '#' {
        ArgView { raw: true, last: true, ..arg }
    } else if c == '@' {
        ArgView { env: Some(name), ..arg }
    } else if c == '.' {
        ArgView { hidden: true, ..arg }
    } else {
        arg
    }
}

/// `arg` after the configuration characters `config`, in order.
pub open spec fn configured_all(arg: ArgView, config: Seq<char>, name: Seq<char>) -> ArgView
    decreases config.len(),
{
    if config.len() == 0 {
        arg
    } else {
        configured_all(configured(arg, config[0], name), config.drop_first(), name)
    }
}

/// The first long flag name and the first short flag name seen among the
/// names of one declaration.
#[verifier::ext_equal]
pub struct FlagNames {
    pub first_long: Option<Seq<char>>,
    pub first_short: Option<char>,
}

/// No flag name seen yet.
pub open spec fn no_flag_names() -> FlagNames {
    FlagNames { first_long: None, first_short: None }
}

/// `arg` and the names seen, after the flag name `name` written with the flag
/// part `flag`. With `--` or `--?` the first long name becomes the long name
/// and a later one a visible (`--`) or hidden (`--?`) alias; with `-` or `-?`
/// the first character of the name does the same for the short name. Another
/// flag part, or an empty name, changes nothing.
pub open spec fn flagged(arg: ArgView, seen: FlagNames, flag: Seq<char>, name: Seq<char>) -> (
    ArgView,
    FlagNames,
) {
    if name.len() == 0 {
        (arg, seen)
    } else if flag == "--?"@ || flag == "--"@ {
        match seen.first_long {
            None => (ArgView { long: Some(name), ..arg }, FlagNames { first_long: Some(name), ..seen }),
            Some(_) => if flag == "--"@ {
                (ArgView { visible_aliases: arg.visible_aliases.push(name), ..arg }, seen)
            } else {
                (ArgView { aliases: arg.aliases.push(name), ..arg }, seen)
            },
        }
    } else if flag == "-?"@ || flag == "-"@ {
        let c = name[0];
        match seen.first_short {
            None => (ArgView { short: Some(c), ..arg }, FlagNames { first_short: Some(c), ..seen }),
            Some(_) => if flag == "-"@ {
                (ArgView { visible_short_aliases: arg.visible_short_aliases.push(c), ..arg }, seen)
            } else {
                (ArgView { short_aliases: arg.short_aliases.push(c), ..arg }, seen)
            },
        }
    } else {
        (arg, seen)
    }
}

/// `arg` and the flag names seen, after one name of its declaration: a
/// positional name sets the id and the index; a name with a flag part sets
/// flag names.
pub open spec fn named_arg(arg: ArgView, seen: FlagNames, configured_name: Seq<char>, index: usize) -> (
    ArgView,
    FlagNames,
) {
    let (config, rest) = split_config(configured_name);
    let (config, flag) = split_flag(config);
    let (arg, name) = value_named(arg, rest);
    let (arg, seen) = if flag.len() == 0 {
        (ArgView { id: name, index: Some(index), ..arg }, seen)
    } else {
        flagged(arg, seen, flag, name)
    };
    (configured_all(arg, config, name), seen)
}

/// The end of the run of non-whitespace characters from `p`.
pub open spec fn word_end(chars: Seq<char>, p: int) -> int
    decreases chars.len() - p,
{
    if p < 0 || p >= chars.len() || is_white_space(chars[p]) {
        p
    } else {
        word_end(chars, p + 1)
    }
}

/// The word from `p` up to the next whitespace, and the position after that
/// whitespace.
pub open spec fn word_at(chars: Seq<char>, p: int) -> (Seq<char>, int) {
    let e = word_end(chars, p);
    (chars.subrange(p, e), if e < chars.len() { e + 1 } else { e })
}

/// Reading a word stops at the first whitespace, within the input.
pub(crate) proof fn lemma_word_end(chars: Seq<char>, p: int)
    requires
        0 <= p <= chars.len(),
    ensures
        p <= word_end(chars, p) <= chars.len(),
        forall|j: int| p <= j < word_end(chars, p) ==> !is_white_space(#[trigger] chars[j]),
        word_end(chars, p) < chars.len() ==> is_white_space(chars[word_end(chars, p)]),
    decreases chars.len() - p,
{
    if p < chars.len() && !is_white_space(chars[p]) {
        lemma_word_end(chars, p + 1);
    }
}

/// What the names of one argument declaration share: the index that a
/// positional name takes, and the first long and short flag names seen.
pub struct Parser {
    first_long: Option<String>,
    first_short: Option<char>,
    index: usize,
}

impl Parser {
    /// The index that a positional name takes.
    pub closed spec fn spec_index(&self) -> usize {
        self.index
    }

    /// The first long and short flag names seen so far.
    pub closed spec fn seen(&self) -> FlagNames {
        FlagNames { first_long: opt_view(self.first_long), first_short: self.first_short }
    }

    /// A parser for the argument at position `index` of its group.
    pub fn new(index: usize) -> (p: Parser)
        ensures
            p.spec_index() == index,
            p.seen() == no_flag_names(),
    {
        Parser { first_long: None, first_short: None, index }
    }

    /// Sets a flag name of `arg`, written with the flag part `config`: the
    /// first long name (`--` or `--?`) becomes the long name and later ones
    /// visible or hidden aliases; the same for the first character of a short
    /// name (`-` or `-?`). The first long and short names are recorded.
    #[verifier::rlimit(40)]
    pub fn parse_flag(&mut self, arg: ArgSpec, config: String, name: String) -> (r: ArgSpec)
        ensures
            (r@, final(self).seen()) == flagged(arg@, old(self).seen(), config@, name@),
            final(self).spec_index() == old(self).spec_index(),
    {
        if name.as_str().is_empty() {
            return arg;
        }
        let ghost a0 = arg@;
        let ghost seen0 = self.seen();
        let mut arg = arg;
        let cfg = chars_of(config.as_str());
        if crate::text::chars_eq(&cfg, "--?") || crate::text::chars_eq(&cfg, "--") {
            let visible = crate::text::chars_eq(&cfg, "--");
            if self.first_long.is_none() {
                self.first_long = Some(name.clone());
                arg.long = Some(name);
                assert(arg@ =~= flagged(a0, seen0, config@, name@).0);
            } else if visible {
                let ghost v0 = arg.visible_aliases@;
                arg.visible_aliases.push(name);
                assert(views(arg.visible_aliases@) =~= views(v0).push(name@));
                assert(arg@ =~= flagged(a0, seen0, config@, name@).0);
            } else {
                let ghost v0 = arg.aliases@;
                arg.aliases.push(name);
                assert(views(arg.aliases@) =~= views(v0).push(name@));
                assert(arg@ =~= flagged(a0, seen0, config@, name@).0);
            }
        } else if crate::text::chars_eq(&cfg, "-?") || crate::text::chars_eq(&cfg, "-") {
            let name_chars = chars_of(name.as_str());
            let c = name_chars[0];
            let visible = crate::text::chars_eq(&cfg, "-");
            if self.first_short.is_none() {
                self.first_short = Some(c);
                arg.short = Some(c);
            } else if visible {
                arg.visible_short_aliases.push(c);
            } else {
                arg.short_aliases.push(c);
            }
            assert(arg@ =~= flagged(a0, seen0, config@, name@).0);
        }
        arg
    }
}

/// Splits the leading configuration characters off a configured name.
pub fn extract_config(configured_name: String) -> (r: (Vec<char>, String))
    ensures
        (r.0@, r.1@) == split_config(configured_name@),
{
    let cs = chars_of(configured_name.as_str());
    let ghost s = cs@;
    let mut config: Vec<char> = Vec::new();
    let mut i: usize = 0;
    assert(s.skip(0) =~= s);
    while i < cs.len() && is_config_char_exec(cs[i])
        invariant
            i <= cs@.len(),
            s == cs@,
            config@ == s.take(i as int),
            config_len(s) == i + config_len(s.skip(i as int)),
        decreases cs.len() - i,
    {
        proof {
            assert(s.skip(i as int).drop_first() =~= s.skip(i + 1));
        }
        config.push(cs[i]);
        i = i + 1;
        assert(config@ =~= s.take(i as int));
    }
    assert(config_len(s.skip(i as int)) == 0) by {
        if i < s.len() {
            assert(s.skip(i as int)[0] == s[i as int]);
        }
    }
    let name = string_of_range(&cs, i, cs.len());
    assert(s.subrange(i as int, s.len() as int) =~= s.skip(i as int));
    (config, name)
}

fn is_config_char_exec(c: char) -> (b: bool)
    ensures
        b == is_config_char(c),
{
    c == '-' || c == '!' || c == '?' || c == '$' || c == '*' || c == '^' || c == '%' || c == '~'
        || c == '_' || c == '=' || c == '#' || c == '@' || c == '.'
}

/// Splits configuration characters at the first `-`: the characters before
/// it, and the flag part from it on.
pub fn extract_flag_config(config: Vec<char>) -> (r: (Vec<char>, String))
    ensures
        (r.0@, r.1@) == split_flag(config@),
{
    let ghost s = config@;
    proof {
        lemma_index_of(s, '-');
    }
    let mut before: Vec<char> = Vec::new();
    let mut i: usize = 0;
    while i < config.len() && config[i] != '-'
        invariant
            i <= config@.len(),
            s == config@,
            before@ == s.take(i as int),
            forall|j: int| 0 <= j < i ==> s[j] != '-',
        decreases config.len() - i,
    {
        before.push(config[i]);
        i = i + 1;
        assert(before@ =~= s.take(i as int));
    }
    let flag = string_of_range(&config, i, config.len());
    proof {
        crate::text::lemma_index_of_at(s, '-', i as int);
        if i < s.len() {
            assert(s.subrange(i as int, s.len() as int) =~= s.skip(i as int));
        } else {
            assert(before@ =~= s);
            assert(s.subrange(i as int, s.len() as int) =~= Seq::<char>::empty());
        }
    }
    (before, flag)
}

/// Sets the value names given as `<Name>` after the name, and gives the
/// name before them.
pub fn parse_value_name(arg: ArgSpec, name: String) -> (r: (ArgSpec, String))
    ensures
        (r.0@, r.1@) == value_named(arg@, name@),
{
    let cs = chars_of(name.as_str());
    let pieces = split_chars(&cs, 0, cs.len(), '<');
    assert(cs@.subrange(0, cs@.len() as int) =~= cs@);
    let ghost ps = split_on(name@, '<');
    proof {
        lemma_split_nonempty(name@, '<');
        assert(char_views(pieces@)[0] == pieces@[0]@);
    }
    let name_parsed = trimmed_string(&pieces[0], 0, pieces[0].len());
    assert(pieces@[0]@.subrange(0, pieces@[0]@.len() as int) =~= pieces@[0]@);
    let ghost a_init = arg@;
    let mut arg = arg;
    let mut i: usize = 1;
    let mut done = false;
    while i < pieces.len() && !done
        invariant
            1 <= i <= pieces@.len(),
            ps == char_views(pieces@),
            named_values(arg@, ps, i as int) == named_values(a_init, ps, 1),
            done ==> named_values(arg@, ps, i as int) == arg@,
        decreases pieces.len() - i + (if done { 0int } else { 1int }),
    {
        let piece = &pieces[i];
        assert(ps[i as int] == piece@);
        assert(piece@.subrange(0, piece@.len() as int) =~= piece@);
        let v = trimmed_string(piece, 0, piece.len());
        let vc = chars_of(v.as_str());
        if vc.len() > 0 && vc[vc.len() - 1] == '>' {
            let ghost a0 = arg@;
            let value_name = trimmed_string(&vc, 0, vc.len() - 1);
            assert(vc@.subrange(0, vc@.len() - 1) =~= trim(ps[i as int]).drop_last());
            let ghost n0 = arg.value_names@;
            arg.value_names.push(value_name);
            assert(views(arg.value_names@) =~= views(n0).push(value_name_of(ps[i as int])));
            assert(arg@ =~= ArgView {
                value_names: a0.value_names.push(value_name_of(ps[i as int])),
                ..a0
            });
            i = i + 1;
        } else {
            done = true;
        }
    }
    (arg, name_parsed)
}

/// `arg` and the flag names seen, after each of `names`, in order.
pub open spec fn named_all(arg: ArgView, seen: FlagNames, names: Seq<Seq<char>>, index: usize) -> (
    ArgView,
    FlagNames,
)
    decreases names.len(),
{
    if names.len() == 0 {
        (arg, seen)
    } else {
        let (a, sn) = named_arg(arg, seen, names[0], index);
        named_all(a, sn, names.drop_first(), index)
    }
}

fn configure(arg: &mut ArgSpec, c: char, name: &String)
    ensures
        final(arg)@ == configured(old(arg)@, c, name@),
{
    let ghost a0 = arg@;
    if c == '!' {
        arg.required = true;
    } else if c == '?' {
        arg.required = false;
    } else if c == '$' {
        arg.last = true;
    } else if c == '*' {
        arg.trailing_var_arg = true;
    } else if c == '^' {
        arg.exclusive = true;
    } else if c == '%' {
        arg.global = true;
    } else if c == '~' {
        arg.ignore_case = true;
    } else if c == '_' {
        arg.allow_negative_numbers = true;
    } else if c == '=' {
        arg.require_equals = true;
    } else if c == '#' {
        arg.raw = true;
        arg.last = true;
    } else if c == '@' {
        arg.env = Some(name.clone());
    } else if c == '.' {
        arg.hidden = true;
    }
    assert(arg@ =~= configured(a0, c, name@));
}

impl Parser {
    /// Applies one name of an argument declaration to `arg`: its leading
    /// configuration characters, its flag part, its value names, and for a
    /// positional name the id and the index.
    pub fn parse_name(&mut self, arg: ArgSpec, configured_name: String) -> (r: ArgSpec)
        ensures
            (r@, final(self).seen()) == named_arg(
                arg@,
                old(self).seen(),
                configured_name@,
                old(self).spec_index(),
            ),
            final(self).spec_index() == old(self).spec_index(),
    {
        let (config, name) = extract_config(configured_name);
        let (config, flag_config) = extract_flag_config(config);
        let (mut arg, name) = parse_value_name(arg, name);
        if flag_config.as_str().is_empty() {
            arg.id = name.clone();
            arg.index = Some(self.index);
        } else {
            arg = self.parse_flag(arg, flag_config, name.clone());
        }
        let ghost a1 = arg@;
        let mut i: usize = 0;
        assert(config@.skip(0) =~= config@);
        while i < config.len()
            invariant
                i <= config@.len(),
                configured_all(arg@, config@.skip(i as int), name@) == configured_all(
                    a1,
                    config@,
                    name@,
                ),
            decreases config.len() - i,
        {
            assert(config@.skip(i as int).drop_first() =~= config@.skip(i + 1));
            configure(&mut arg, config[i], &name);
            i = i + 1;
        }
        arg
    }
}

/// Reads the word that starts at `pos`, up to the next whitespace, and gives
/// the position after that whitespace.
pub fn take_until_space(chars: &Vec<char>, pos: usize) -> (r: (String, usize))
    requires
        pos <= chars@.len(),
    ensures
        (r.0@, r.1 as int) == word_at(chars@, pos as int),
{
    proof {
        lemma_word_end(chars@, pos as int);
    }
    let mut e = pos;
    while e < chars.len() && !is_whitespace(chars[e])
        invariant
            pos <= e <= chars@.len(),
            word_end(chars@, e as int) == word_end(chars@, pos as int),
        decreases chars.len() - e,
    {
        e = e + 1;
    }
    let word = string_of_range(chars, pos, e);
    let next = if e < chars.len() { e + 1 } else { e };
    (word, next)
}

/// Sets the default value of `arg`.
pub fn parse_default_value(arg: ArgSpec, value: String) -> (r: ArgSpec)
    ensures
        r@ == (ArgView { default_value: Some(value@), ..arg@ }),
{
    let ghost a0 = arg@;
    let mut arg = arg;
    arg.default_value = Some(value);
    assert(arg@ =~= ArgView { default_value: Some(value@), ..a0 });
    arg
}

/// Sets the value that `arg` takes when it is given without one.
pub fn parse_default_missing_value(arg: ArgSpec, value: String) -> (r: ArgSpec)
    ensures
        r@ == (ArgView { default_missing_value: Some(value@), ..arg@ }),
{
    let ghost a0 = arg@;
    let mut arg = arg;
    arg.default_missing_value = Some(value);
    assert(arg@ =~= ArgView { default_missing_value: Some(value@), ..a0 });
    arg
}

/// `arg` with the value hint that clap reads from `hint`, if it reads one.
pub open spec fn hinted(arg: ArgView, hint: Seq<char>) -> ArgView {
    match value_hint_named(hint) {
        Some(h) => ArgView { value_hint: Some(h), ..arg },
        None => arg,
    }
}

/// Sets the value hint named by `hint`; an unknown name leaves `arg` as it is.
pub fn parse_value_hint(arg: ArgSpec, hint: String) -> (r: ArgSpec)
    ensures
        r@ == hinted(arg@, hint@),
{
    let ghost a0 = arg@;
    let mut arg = arg;
    match value_hint_from_str(hint.as_str()) {
        Some(h) => {
            arg.value_hint = Some(h);
        },
        None => {},
    }
    assert(arg@ =~= hinted(a0, hint@));
    arg
}

/// The state of the scan of one argument declaration.
#[verifier::ext_equal]
pub struct ScanState {
    pub arg: ArgView,
    pub names: Seq<Seq<char>>,
    pub current: Seq<char>,
    pub prev: Option<char>,
    pub in_names: bool,
}

/// `names` with the trimmed `current`, unless it is empty.
pub open spec fn pushed_names(names: Seq<Seq<char>>, current: Seq<char>) -> Seq<Seq<char>> {
    if trim(current).len() > 0 {
        names.push(trim(current))
    } else {
        names
    }
}

/// The characters that end an argument declaration.
pub open spec fn is_separator(c: char) -> bool {
    c == ',' || c == ')' || c == ']' || c == '}'
}

/// `current` without its last character where that is `m`: the first
/// character of a marker such as `: ` is not part of a name.
pub open spec fn unmarked(current: Seq<char>, m: char) -> Seq<char> {
    if current.len() > 0 && current.last() == m {
        current.drop_last()
    } else {
        current
    }
}

/// What the pair of the previous character and `chars[pos]` does: `: ` reads
/// a type, `= ` a default value, `=>` a value hint, `=? ` a default for a
/// missing value. Gives the new state, the next position, and whether the
/// scan stops there.
pub open spec fn pair_step(st: ScanState, chars: Seq<char>, pos: int) -> (ScanState, int, bool) {
    let c = chars[pos];
    let p1 = pos + 1;
    if st.prev == Some(':') && c == ' ' {
        let (w, q) = word_at(chars, p1);
        (
            ScanState {
                arg: typed_arg(st.arg, w),
                in_names: false,
                current: unmarked(st.current, ':'),
                ..st
            },
            q,
            false,
        )
    } else if st.prev == Some('=') && c == ' ' {
        let (w, q) = word_at(chars, p1);
        (
            ScanState {
                arg: ArgView { default_value: Some(w), ..st.arg },
                in_names: false,
                current: unmarked(st.current, '='),
                ..st
            },
            q,
            false,
        )
    } else if st.prev == Some('=') && c == '>' {
        let (w, q) = word_at(chars, p1);
        (
            ScanState {
                arg: hinted(st.arg, w),
                in_names: false,
                current: unmarked(st.current, '='),
                ..st
            },
            q,
            false,
        )
    } else if st.prev == Some('=') && c == '?' {
        if p1 < chars.len() {
            let d = chars[p1];
            if d == ' ' {
                let (w, q) = word_at(chars, p1 + 1);
                (
                    ScanState {
                        arg: ArgView { default_missing_value: Some(w), ..st.arg },
                        in_names: false,
                        current: unmarked(st.current, '='),
                        ..st
                    },
                    q,
                    false,
                )
            } else if st.in_names {
                (ScanState { current: st.current.push(d), ..st }, p1 + 1, false)
            } else {
                (ScanState { prev: Some(d), ..st }, p1 + 1, true)
            }
        } else {
            (ScanState { prev: None, ..st }, p1, true)
        }
    } else {
        (st, p1, false)
    }
}

/// What the character `c` itself does once its pair was handled: a space or
/// a `|` ends a name, another character extends it, until the first value.
pub open spec fn after_char(st: ScanState, c: char) -> ScanState {
    if (c == ' ' || c == '|') && st.in_names {
        ScanState {
            names: pushed_names(st.names, st.current),
            current: Seq::empty(),
            prev: Some(c),
            ..st
        }
    } else if st.in_names {
        ScanState { current: st.current.push(c), prev: Some(c), ..st }
    } else {
        ScanState { prev: Some(c), ..st }
    }
}

/// The scan of an argument declaration from `pos`: it stops at a separator,
/// which it gives as `prev`, or at the end of the input, where `prev` is
/// `None`. Gives the final state and the position after the last character read.
pub open spec fn scan(st: ScanState, chars: Seq<char>, pos: int) -> (ScanState, int)
    decreases chars.len() - pos,
{
    if pos < 0 || pos >= chars.len() {
        (ScanState { prev: None, ..st }, pos)
    } else {
        let (st1, q, stopped) = pair_step(st, chars, pos);
        if stopped {
            (st1, q)
        } else if is_separator(chars[pos]) {
            (ScanState { prev: Some(chars[pos]), ..st1 }, q)
        } else if pos < q <= chars.len() {
            scan(after_char(st1, chars[pos]), chars, q)
        } else {
            (st1, q)
        }
    }
}

/// The state in which the scan of a declaration starts.
pub open spec fn initial_scan(arg: ArgView) -> ScanState {
    ScanState {
        arg,
        names: Seq::empty(),
        current: Seq::empty(),
        prev: None,
        in_names: true,
    }
}

/// The id of an argument that has neither a positional name nor a flag name.
pub open spec fn fallback_id() -> Seq<char> {
    "ErrorNoFlagNoPositional"@
}

/// `arg` with its id where it has no positional name: its first long name,
/// else its first short name, else `fallback_id()`.
pub open spec fn declared_id(arg: ArgView, seen: FlagNames) -> ArgView {
    if arg.index is None {
        ArgView {
            id: match seen.first_long {
                Some(l) => l,
                None => match seen.first_short {
                    Some(c) => seq![c],
                    None => fallback_id(),
                },
            },
            ..arg
        }
    } else {
        arg
    }
}

/// The argument declared at `chars[pos..]`, the character that ended the
/// declaration (`None` at the end of the input), and the position after it.
pub open spec fn parsed_argument(arg: ArgView, chars: Seq<char>, pos: int, index: usize) -> (
    ArgView,
    Option<char>,
    int,
) {
    let (st, q) = scan(initial_scan(arg), chars, pos);
    let (a, seen) = named_all(st.arg, no_flag_names(), pushed_names(st.names, st.current), index);
    (declared_id(a, seen), st.prev, q)
}

proof fn lemma_pair_step_bounds(st: ScanState, chars: Seq<char>, pos: int)
    requires
        0 <= pos < chars.len(),
    ensures
        pos < pair_step(st, chars, pos).1 <= chars.len(),
{
    lemma_word_end(chars, pos + 1);
    if pos + 2 <= chars.len() {
        lemma_word_end(chars, pos + 2);
    }
}

/// A scan that does not stop at a separator reads the whole input.
pub proof fn lemma_scan_ends(st: ScanState, chars: Seq<char>, pos: int)
    requires
        0 <= pos <= chars.len(),
    ensures
        scan(st, chars, pos).0.prev is None ==> scan(st, chars, pos).1 == chars.len(),
    decreases chars.len() - pos,
{
    if pos < chars.len() {
        lemma_pair_step_bounds(st, chars, pos);
        let (st1, q, stopped) = pair_step(st, chars, pos);
        if !stopped && !is_separator(chars[pos]) {
            lemma_scan_ends(after_char(st1, chars[pos]), chars, q);
        }
    }
}

/// The scan moves forward, stays in the input, and moves past at least one
/// character when it stops at a separator.
pub proof fn lemma_scan_bounds(st: ScanState, chars: Seq<char>, pos: int)
    requires
        0 <= pos <= chars.len(),
    ensures
        pos <= scan(st, chars, pos).1 <= chars.len(),
        scan(st, chars, pos).0.prev is Some ==> pos < scan(st, chars, pos).1,
    decreases chars.len() - pos,
{
    if pos < chars.len() {
        lemma_pair_step_bounds(st, chars, pos);
        let (st1, q, stopped) = pair_step(st, chars, pos);
        if !stopped && !is_separator(chars[pos]) {
            lemma_scan_bounds(after_char(st1, chars[pos]), chars, q);
        }
    }
}

struct Scan {
    arg: ArgSpec,
    names: Vec<String>,
    current: Vec<char>,
    prev: Option<char>,
    in_names: bool,
}

impl View for Scan {
    type V = ScanState;

    closed spec fn view(&self) -> ScanState {
        ScanState {
            arg: self.arg@,
            names: views(self.names@),
            current: self.current@,
            prev: self.prev,
            in_names: self.in_names,
        }
    }
}

fn push_name(names: &mut Vec<String>, current: &Vec<char>)
    ensures
        views(final(names)@) == pushed_names(views(old(names)@), current@),
{
    assert(current@.subrange(0, current@.len() as int) =~= current@);
    let name = trimmed_string(current, 0, current.len());
    if !name.as_str().is_empty() {
        let ghost n0 = names@;
        names.push(name);
        assert(views(names@) =~= views(n0).push(name@));
    }
}

fn is_prev(prev: Option<char>, c: char) -> (b: bool)
    ensures
        b == (prev == Some(c)),
{
    match prev {
        Some(p) => p == c,
        None => false,
    }
}

impl Scan {
    fn unmark(&mut self, m: char)
        ensures
            final(self)@ == (ScanState { current: unmarked(old(self)@.current, m), ..old(self)@ }),
    {
        let ghost st = self@;
        let n = self.current.len();
        if n > 0 && self.current[n - 1] == m {
            self.current.pop();
        }
        assert(self@ =~= ScanState { current: unmarked(st.current, m), ..st });
    }

    fn read_type(&mut self, chars: &Vec<char>, p: usize) -> (q: usize)
        requires
            p <= chars@.len(),
        ensures
            final(self)@ == (ScanState {
                arg: typed_arg(old(self)@.arg, word_at(chars@, p as int).0),
                in_names: false,
                ..old(self)@
            }),
            q == word_at(chars@, p as int).1,
    {
        let ghost st = self@;
        let (w, q) = take_until_space(chars, p);
        let mut arg = ArgSpec::new(String::new());
        std::mem::swap(&mut arg, &mut self.arg);
        self.arg = crate::arg_type::parse(arg, w);
        self.in_names = false;
        assert(self@ =~= ScanState {
            arg: typed_arg(st.arg, word_at(chars@, p as int).0),
            in_names: false,
            ..st
        });
        q
    }

    fn read_default(&mut self, chars: &Vec<char>, p: usize) -> (q: usize)
        requires
            p <= chars@.len(),
        ensures
            final(self)@ == (ScanState {
                arg: ArgView { default_value: Some(word_at(chars@, p as int).0), ..old(self)@.arg },
                in_names: false,
                ..old(self)@
            }),
            q == word_at(chars@, p as int).1,
    {
        let ghost st = self@;
        let (w, q) = take_until_space(chars, p);
        let mut arg = ArgSpec::new(String::new());
        std::mem::swap(&mut arg, &mut self.arg);
        self.arg = parse_default_value(arg, w);
        self.in_names = false;
        assert(self@ =~= ScanState {
            arg: ArgView { default_value: Some(word_at(chars@, p as int).0), ..st.arg },
            in_names: false,
            ..st
        });
        q
    }

    fn read_hint(&mut self, chars: &Vec<char>, p: usize) -> (q: usize)
        requires
            p <= chars@.len(),
        ensures
            final(self)@ == (ScanState {
                arg: hinted(old(self)@.arg, word_at(chars@, p as int).0),
                in_names: false,
                ..old(self)@
            }),
            q == word_at(chars@, p as int).1,
    {
        let ghost st = self@;
        let (w, q) = take_until_space(chars, p);
        let mut arg = ArgSpec::new(String::new());
        std::mem::swap(&mut arg, &mut self.arg);
        self.arg = parse_value_hint(arg, w);
        self.in_names = false;
        assert(self@ =~= ScanState {
            arg: hinted(st.arg, word_at(chars@, p as int).0),
            in_names: false,
            ..st
        });
        q
    }

    fn read_missing(&mut self, chars: &Vec<char>, p: usize) -> (q: usize)
        requires
            p <= chars@.len(),
        ensures
            final(self)@ == (ScanState {
                arg: ArgView {
                    default_missing_value: Some(word_at(chars@, p as int).0),
                    ..old(self)@.arg
                },
                in_names: false,
                ..old(self)@
            }),
            q == word_at(chars@, p as int).1,
    {
        let ghost st = self@;
        let (w, q) = take_until_space(chars, p);
        let mut arg = ArgSpec::new(String::new());
        std::mem::swap(&mut arg, &mut self.arg);
        self.arg = parse_default_missing_value(arg, w);
        self.in_names = false;
        assert(self@ =~= ScanState {
            arg: ArgView {
                default_missing_value: Some(word_at(chars@, p as int).0),
                ..st.arg
            },
            in_names: false,
            ..st
        });
        q
    }

    #[verifier::rlimit(50)]
    fn pair(&mut self, chars: &Vec<char>, pos: usize) -> (r: (usize, bool))
        requires
            pos < chars@.len(),
        ensures
            (final(self)@, r.0 as int, r.1) == pair_step(old(self)@, chars@, pos as int),
    {
        let ghost st = self@;
        let n = chars.len();
        let c = chars[pos];
        let p1 = pos + 1;
        if is_prev(self.prev, ':') && c == ' ' {
            self.unmark(':');
            let q = self.read_type(chars, p1);
            (q, false)
        } else if is_prev(self.prev, '=') && c == ' ' {
            self.unmark('=');
            let q = self.read_default(chars, p1);
            (q, false)
        } else if is_prev(self.prev, '=') && c == '>' {
            self.unmark('=');
            let q = self.read_hint(chars, p1);
            (q, false)
        } else if is_prev(self.prev, '=') && c == '?' {
            if p1 < n {
                let d = chars[p1];
                if d == ' ' {
                    self.unmark('=');
                    let q = self.read_missing(chars, p1 + 1);
                    (q, false)
                } else if self.in_names {
                    self.current.push(d);
                    assert(self@ =~= pair_step(st, chars@, pos as int).0);
                    (p1 + 1, false)
                } else {
                    self.prev = Some(d);
                    assert(self@ =~= pair_step(st, chars@, pos as int).0);
                    (p1 + 1, true)
                }
            } else {
                self.prev = None;
                assert(self@ =~= pair_step(st, chars@, pos as int).0);
                (p1, true)
            }
        } else {
            (p1, false)
        }
    }

    fn after(&mut self, c: char)
        ensures
            final(self)@ == after_char(old(self)@, c),
    {
        let ghost st = self@;
        if (c == ' ' || c == '|') && self.in_names {
            push_name(&mut self.names, &self.current);
            self.current = Vec::new();
        } else if self.in_names {
            self.current.push(c);
        }
        self.prev = Some(c);
        assert(self@ =~= after_char(st, c));
    }
}

impl Parser {
    fn parse_names(&mut self, arg: ArgSpec, names: &Vec<String>) -> (r: ArgSpec)
        ensures
            (r@, final(self).seen()) == named_all(
                arg@,
                old(self).seen(),
                views(names@),
                old(self).spec_index(),
            ),
            final(self).spec_index() == old(self).spec_index(),
    {
        let ghost all = views(names@);
        let ghost index = self.spec_index();
        let ghost a0 = arg@;
        let ghost seen0 = self.seen();
        let mut arg = arg;
        let mut i: usize = 0;
        assert(all.skip(0) =~= all);
        while i < names.len()
            invariant
                i <= names@.len(),
                all == views(names@),
                self.spec_index() == index,
                named_all(arg@, self.seen(), all.skip(i as int), index) == named_all(
                    a0,
                    seen0,
                    all,
                    index,
                ),
            decreases names.len() - i,
        {
            assert(all.skip(i as int).drop_first() =~= all.skip(i + 1));
            let name = names[i].clone();
            arg = self.parse_name(arg, name);
            i = i + 1;
        }
        assert(all.skip(names@.len() as int) =~= Seq::<Seq<char>>::empty());
        arg
    }

    fn declare_id(&self, arg: ArgSpec) -> (r: ArgSpec)
        ensures
            r@ == declared_id(arg@, self.seen()),
    {
        proof {
            reveal_strlit("ErrorNoFlagNoPositional");
        }
        let mut arg = arg;
        if arg.index.is_none() {
            let ghost a1 = arg@;
            let id = match &self.first_long {
                Some(long) => long.clone(),
                None => match self.first_short {
                    Some(c) => {
                        let mut s = String::new();
                        s.push(c);
                        assert(s@ =~= seq![c]);
                        s
                    },
                    None => String::from_str("ErrorNoFlagNoPositional"),
                },
            };
            arg.id = id;
            assert(arg@ =~= declared_id(a1, self.seen()));
        }
        arg
    }
}

/// Reads one argument declaration from `chars[pos..]`, for the argument at
/// position `index` of its group: its names, separated by spaces or `|`, then its type
/// after `: `, its default after `= `, its value hint after `=>` and its
/// default for a missing value after `=? `. Gives the argument, the
/// character that ended the declaration (`,`, `)`, `]` or `}`; `None` at the
/// end of the input), and the position after it.
pub fn parse(arg: ArgSpec, chars: &Vec<char>, pos: usize, index: usize) -> (r: (
    ArgSpec,
    Option<char>,
    usize,
))
    requires
        pos <= chars@.len(),
    ensures
        (r.0@, r.1, r.2 as int) == parsed_argument(arg@, chars@, pos as int, index),
        pos <= r.2 <= chars@.len(),
        r.1 is Some ==> pos < r.2,
{
    let mut parser = Parser::new(index);
    let ghost target = scan(initial_scan(arg@), chars@, pos as int);
    proof {
        reveal_strlit("ErrorNoFlagNoPositional");
    }
    proof {
        lemma_scan_bounds(initial_scan(arg@), chars@, pos as int);
    }
    let mut st = Scan { arg, names: Vec::new(), current: Vec::new(), prev: None, in_names: true };
    assert(st@ =~= initial_scan(arg@));
    let mut p = pos;
    let mut done = false;
    while !done
        invariant
            pos <= p <= chars@.len(),
            !done ==> scan(st@, chars@, p as int) == target,
            done ==> (st@, p as int) == target,
        decreases chars@.len() - p + (if done { 0int } else { 1int }),
    {
        if p >= chars.len() {
            st.prev = None;
            done = true;
        } else {
            let c = chars[p];
            proof {
                lemma_pair_step_bounds(st@, chars@, p as int);
            }
            let (q, stopped) = st.pair(chars, p);
            if stopped {
                done = true;
            } else if c == ',' || c == ')' || c == ']' || c == '}' {
                st.prev = Some(c);
                done = true;
            } else {
                st.after(c);
            }
            p = q;
        }
    }
    let Scan { arg, mut names, current, prev, in_names: _ } = st;
    push_name(&mut names, &current);
    let arg = parser.parse_names(arg, &names);
    let arg = parser.declare_id(arg);
    (arg, prev, p)
}

} // verus!
