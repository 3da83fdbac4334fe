//! The access token: which sources are asked for it, in which order, and what counts as one.

use vstd::prelude::*;
use vstd::utf8::{decode_utf8, valid_utf8};

use crate::config::HaConfig;
use crate::text::{law_trimmed_has_no_white_ends, trim, trimmed, white};

verus! {

/// A place where the token may be found.
#[derive(Debug)]
pub enum TokenSource {
    /// The environment variable of a name.
    Env(String),
    /// The output of a shell command.
    Command(String),
    /// The file at a path.
    File(String),
    /// The text in the configuration.
    Inline(String),
    /// The environment variable that is consulted where nothing is configured.
    Fallback,
}

/// A place where the token may be found.
pub enum Source {
    Env(Seq<char>),
    Command(Seq<char>),
    File(Seq<char>),
    Inline(Seq<char>),
    Fallback,
}

impl View for TokenSource {
    type V = Source;

    open spec fn view(&self) -> Source {
        match self {
            TokenSource::Env(name) => Source::Env(name@),
            TokenSource::Command(command) => Source::Command(command@),
            TokenSource::File(path) => Source::File(path@),
            TokenSource::Inline(text) => Source::Inline(text@),
            TokenSource::Fallback => Source::Fallback,
        }
    }
}

impl HaConfig {
    /// The sources that the configuration names, in the order in which they are asked.
    pub open spec fn named_sources(self) -> Seq<Source> {
        let env = match self.token_env {
            Some(name) => seq![Source::Env(name@)],
            None => Seq::empty(),
        };
        let command = match self.token_command {
            Some(text) => seq![Source::Command(text@)],
            None => Seq::empty(),
        };
        let file = match self.token_file {
            Some(path) => seq![Source::File(path@)],
            None => Seq::empty(),
        };
        let inline = match self.token {
            Some(text) => seq![Source::Inline(text@)],
            None => Seq::empty(),
        };
        env + command + file + inline
    }

    /// The sources that are asked: those that the configuration names, or the fallback where it
    /// names none.
    pub open spec fn sources(self) -> Seq<Source> {
        if self.named_sources().len() == 0 {
            seq![Source::Fallback]
        } else {
            self.named_sources()
        }
    }
}

/// What the sources stand for.
pub open spec fn source_views(sources: Seq<TokenSource>) -> Seq<Source> {
    sources.map_values(|source: TokenSource| source@)
}

/// A source that was asked in vain, with the reason where there was one to give.
#[derive(Debug)]
pub struct Tried {
    pub source: TokenSource,
    pub reason: Option<String>,
}

/// What the sources asked in vain stand for.
pub open spec fn tried_views(tried: Seq<Tried>) -> Seq<(Source, Option<Seq<char>>)> {
    tried.map_values(
        |t: Tried|
            (
                t.source@,
                match t.reason {
                    Some(reason) => Some(reason@),
                    None => None,
                },
            ),
    )
}

/// The token in a text: the text without the white space around it, where anything is left.
pub open spec fn token_in(text: Seq<char>) -> Option<Seq<char>> {
    if trimmed(text).len() > 0 {
        Some(trimmed(text))
    } else {
        None
    }
}

/// The token in a text, if it holds one.
pub fn usable_token(text: &str) -> (token: Option<String>)
    ensures
        match token {
            Some(t) => token_in(text@) == Some(t@),
            None => token_in(text@) is None,
        },
{
    let token = trim(text);
    if token.as_str().is_empty() {
        None
    } else {
        Some(token)
    }
}

/// What a source was found to hold: a text, or the reason why it gave none.
pub open spec fn answer_view(answer: Result<String, String>) -> Result<Seq<char>, Seq<char>> {
    match answer {
        Ok(text) => Ok(text@),
        Err(reason) => Err(reason@),
    }
}

/// The token that a source yields: the token in the text of the configuration, and for every
/// other source the token in what it was found to hold.
pub open spec fn yielded(source: Source, answer: Result<Seq<char>, Seq<char>>) -> Option<Seq<char>> {
    match source {
        Source::Inline(text) => token_in(text),
        _ => match answer {
            Ok(text) => token_in(text),
            Err(_) => None,
        },
    }
}

/// The reason that is kept of a source that yielded nothing.
pub open spec fn kept_reason(answer: Result<Seq<char>, Seq<char>>) -> Option<Seq<char>> {
    match answer {
        Ok(_) => None,
        Err(reason) => Some(reason),
    }
}

/// Where a search for the token stands.
pub struct Search {
    /// The sources that are still to be asked, the next one first.
    pub left: Seq<Source>,
    /// The sources that yielded nothing, with the reasons.
    pub tried: Seq<(Source, Option<Seq<char>>)>,
}

impl Search {
    /// All sources of the search: those asked in vain, then those still to be asked.
    pub open spec fn all(self) -> Seq<Source> {
        self.tried.map_values(|t: (Source, Option<Seq<char>>)| t.0) + self.left
    }

    /// The search after the next source gave an answer that is no token.
    pub open spec fn passed(self, answer: Result<Seq<char>, Seq<char>>) -> Search {
        Search {
            left: self.left.drop_first(),
            tried: self.tried.push((self.left[0], kept_reason(answer))),
        }
    }
}

/// A search for the token through the sources of a configuration.
#[derive(Debug)]
pub struct TokenSearch {
    left: Vec<TokenSource>,
    tried: Vec<Tried>,
}

impl View for TokenSearch {
    type V = Search;

    closed spec fn view(&self) -> Search {
        Search { left: source_views(self.left@), tried: tried_views(self.tried@) }
    }
}

/// Why no token was found.
#[derive(Debug)]
pub enum TokenError {
    /// No source is configured, and the fallback holds none.
    NotConfigured,
    /// The sources that are configured were asked in vain.
    NotFound(Vec<Tried>),
}

impl HaConfig {
    /// Begins to resolve the access token from the configured sources, in order: `token_env`,
    /// `token_command`, `token_file`, inline `token`; without any of them, the fallback.
    pub fn resolve_token(&self) -> (search: TokenSearch)
        ensures
            search@.left == self.sources(),
            search@.tried.len() == 0,
    {
        let mut left: Vec<TokenSource> = Vec::new();
        let ghost none = source_views(left@);
        assert(none =~= Seq::<Source>::empty());
        if let Some(name) = &self.token_env {
            left.push(TokenSource::Env(name.clone()));
        }
        let ghost env = source_views(left@);
        assert(env =~= match self.token_env {
            Some(name) => seq![Source::Env(name@)],
            None => Seq::empty(),
        });
        if let Some(command) = &self.token_command {
            left.push(TokenSource::Command(command.clone()));
        }
        let ghost command = source_views(left@);
        assert(command =~= env + match self.token_command {
            Some(text) => seq![Source::Command(text@)],
            None => Seq::empty(),
        });
        if let Some(path) = &self.token_file {
            left.push(TokenSource::File(path.clone()));
        }
        let ghost file = source_views(left@);
        assert(file =~= command + match self.token_file {
            Some(path) => seq![Source::File(path@)],
            None => Seq::empty(),
        });
        if let Some(text) = &self.token {
            left.push(TokenSource::Inline(text.clone()));
        }
        assert(source_views(left@) =~= file + match self.token {
            Some(text) => seq![Source::Inline(text@)],
            None => Seq::empty(),
        });
        assert(source_views(left@) == self.named_sources());
        if left.len() == 0 {
            left.push(TokenSource::Fallback);
            assert(source_views(left@) =~= seq![Source::Fallback]);
        }
        TokenSearch { left, tried: Vec::new() }
    }
}

impl TokenSearch {
    /// The source that is to be asked next.
    pub fn next(&self) -> (source: Option<&TokenSource>)
        ensures
            match source {
                Some(s) => self@.left.len() > 0 && s@ == self@.left[0],
                None => self@.left.len() == 0,
            },
    {
        if self.left.len() > 0 {
            Some(&self.left[0])
        } else {
            None
        }
    }

    /// Takes the answer of the source that was to be asked next, and returns the token if that
    /// yields one. Otherwise the search goes on with the source behind it. A text in the
    /// configuration is known already: its answer is not looked at.
    pub fn offer(&mut self, answer: Result<String, String>) -> (token: Option<String>)
        requires
            old(self)@.left.len() > 0,
        ensures
            match token {
                Some(t) => {
                    &&& yielded(old(self)@.left[0], answer_view(answer)) == Some(t@)
                    &&& final(self)@ == old(self)@
                },
                None => {
                    &&& yielded(old(self)@.left[0], answer_view(answer)) is None
                    &&& final(self)@ == old(self)@.passed(answer_view(answer))
                },
            },
    {
        let ghost before = *self;
        assert(source_views(self.left@)[0] == self.left@[0]@);
        let reason = match &self.left[0] {
            TokenSource::Inline(text) => {
                if let Some(token) = usable_token(text.as_str()) {
                    return Some(token);
                }
                match answer {
                    Ok(_) => None,
                    Err(reason) => Some(reason),
                }
            },
            _ => match answer {
                Ok(text) => {
                    if let Some(token) = usable_token(text.as_str()) {
                        return Some(token);
                    }
                    None
                },
                Err(reason) => Some(reason),
            },
        };
        let source = self.left.remove(0);
        self.tried.push(Tried { source, reason });
        assert(source_views(self.left@) =~= source_views(before.left@).drop_first());
        assert(tried_views(self.tried@) =~= tried_views(before.tried@).push(
            (source_views(before.left@)[0], kept_reason(answer_view(answer))),
        ));
        None
    }

    /// Why the search found no token, once no source is left.
    pub fn failure(self) -> (error: TokenError)
        requires
            self@.left.len() == 0,
        ensures
            match error {
                TokenError::NotConfigured => self@.tried.len() == 1 && self@.tried[0].0
                    == Source::Fallback,
                TokenError::NotFound(tried) => tried_views(tried@) == self@.tried && !(
                self@.tried.len() == 1 && self@.tried[0].0 == Source::Fallback),
            },
    {
        assert(tried_views(self.tried@).len() == self.tried@.len());
        if self.tried.len() == 1 {
            assert(tried_views(self.tried@)[0].0 == self.tried@[0].source@);
            if let TokenSource::Fallback = &self.tried[0].source {
                return TokenError::NotConfigured;
            }
        }
        TokenError::NotFound(self.tried)
    }
}

/// Why the output of a command is no token.
#[derive(Debug, Clone, Copy, PartialEq, Eq, Structural)]
pub enum CommandError {
    /// The command did not succeed.
    Failed,
    /// The output is not UTF-8.
    NotUtf8,
    /// The output is empty but for white space.
    Empty,
}

/// Calls `String::from_utf8`. It gives the string that the bytes encode in UTF-8, and nothing
/// where they are no valid encoding.
#[verifier::external_body]
fn string_from_utf8(bytes: Vec<u8>) -> (text: Option<String>)
    ensures
        match text {
            Some(t) => valid_utf8(bytes@) && t@ == decode_utf8(bytes@),
            None => !valid_utf8(bytes@),
        },
{
    match String::from_utf8(bytes) {
        Ok(text) => Some(text),
        Err(_) => None,
    }
}

/// The token that a command printed, or what is wrong with it.
pub open spec fn command_token(success: bool, stdout: Seq<u8>) -> Result<Seq<char>, CommandError> {
    if !success {
        Err(CommandError::Failed)
    } else if !valid_utf8(stdout) {
        Err(CommandError::NotUtf8)
    } else {
        match token_in(decode_utf8(stdout)) {
            Some(token) => Ok(token),
            None => Err(CommandError::Empty),
        }
    }
}

/// The token in what a command printed, given whether the command succeeded.
pub fn token_from_command(success: bool, stdout: Vec<u8>) -> (token: Result<String, CommandError>)
    ensures
        match token {
            Ok(t) => command_token(success, stdout@) == Ok::<Seq<char>, CommandError>(t@),
            Err(e) => command_token(success, stdout@) == Err::<Seq<char>, CommandError>(e),
        },
{
    if !success {
        return Err(CommandError::Failed);
    }
    match string_from_utf8(stdout) {
        Some(text) => match usable_token(text.as_str()) {
            Some(token) => Ok(token),
            None => Err(CommandError::Empty),
        },
        None => Err(CommandError::NotUtf8),
    }
}

/// Whether a token file with these permission bits is closed to group and world.
pub fn token_file_is_private(mode: u32) -> (private: bool)
    ensures
        private == (mode & 0o077 == 0),
{
    mode & 0o077 == 0
}

/// Why a file gives no token.
#[derive(Debug, Clone, Copy, PartialEq, Eq, Structural)]
pub enum FileError {
    /// The file is open to group or world.
    Open,
    /// The file is empty but for white space.
    Empty,
}

/// The token in a file with these permission bits, or what is wrong with the file.
pub open spec fn file_token(mode: u32, text: Seq<char>) -> Result<Seq<char>, FileError> {
    if mode & 0o077 != 0 {
        Err(FileError::Open)
    } else {
        match token_in(text) {
            Some(token) => Ok(token),
            None => Err(FileError::Empty),
        }
    }
}

/// The token in a file's text, given the permission bits of the file. Of a file that is open to
/// group or world the text is not looked at.
pub fn token_from_file(mode: u32, text: &str) -> (token: Result<String, FileError>)
    ensures
        match token {
            Ok(t) => file_token(mode, text@) == Ok::<Seq<char>, FileError>(t@),
            Err(e) => file_token(mode, text@) == Err::<Seq<char>, FileError>(e),
        },
{
    if !token_file_is_private(mode) {
        return Err(FileError::Open);
    }
    match usable_token(text) {
        Some(token) => Ok(token),
        None => Err(FileError::Empty),
    }
}

/// What a search comes to when its sources, in order, give these answers.
pub open spec fn found(sources: Seq<Source>, answers: Seq<Result<Seq<char>, Seq<char>>>) -> Option<
    Seq<char>,
>
    decreases sources.len(),
{
    if sources.len() == 0 || answers.len() == 0 {
        None
    } else {
        match yielded(sources[0], answers[0]) {
            Some(token) => Some(token),
            None => found(sources.drop_first(), answers.drop_first()),
        }
    }
}

/// The token is that of the first source that yields one, whatever the sources behind it hold.
pub proof fn law_first_source_that_yields_wins(
    sources: Seq<Source>,
    answers: Seq<Result<Seq<char>, Seq<char>>>,
    i: int,
)
    requires
        0 <= i < sources.len(),
        i < answers.len(),
        yielded(sources[i], answers[i]) is Some,
        forall|j: int| 0 <= j < i ==> yielded(#[trigger] sources[j], answers[j]) is None,
    ensures
        found(sources, answers) == yielded(sources[i], answers[i]),
    decreases i,
{
    if i > 0 {
        assert(yielded(sources[0], answers[0]) is None);
        let s = sources.drop_first();
        let a = answers.drop_first();
        assert forall|j: int| 0 <= j < i - 1 implies yielded(#[trigger] s[j], a[j]) is None by {
            assert(s[j] == sources[j + 1]);
        }
        law_first_source_that_yields_wins(s, a, i - 1);
    }
}

/// A step of the search leaves what it comes to unchanged: the rest of the sources decide with
/// the rest of the answers.
pub proof fn law_search_goes_on(search: Search, answers: Seq<Result<Seq<char>, Seq<char>>>)
    requires
        search.left.len() > 0,
        answers.len() > 0,
        yielded(search.left[0], answers[0]) is None,
    ensures
        found(search.left, answers) == found(search.passed(answers[0]).left, answers.drop_first()),
        search.passed(answers[0]).left.len() + search.passed(answers[0]).tried.len()
            == search.left.len() + search.tried.len(),
{
}

/// Every source stands in the search, asked in vain or still to be asked, and keeps its place.
pub proof fn law_no_source_is_lost(search: Search, answer: Result<Seq<char>, Seq<char>>)
    requires
        search.left.len() > 0,
    ensures
        search.passed(answer).all() == search.all(),
{
    assert(search.passed(answer).all() =~= search.all());
}

/// A search that found nothing has asked every source in order, and it ran through the fallback
/// alone exactly where the configuration names no source.
pub proof fn law_failure_names_every_source(config: HaConfig, search: Search)
    requires
        search.all() == config.sources(),
        search.left.len() == 0,
    ensures
        search.tried.len() == config.sources().len(),
        forall|i: int|
            0 <= i < search.tried.len() ==> (#[trigger] search.tried[i]).0 == config.sources()[i],
        (search.tried.len() == 1 && search.tried[0].0 == Source::Fallback) == (
        config.named_sources().len() == 0),
{
    let asked = search.tried.map_values(|t: (Source, Option<Seq<char>>)| t.0);
    assert(search.all() =~= asked);
    assert forall|i: int| 0 <= i < search.tried.len() implies (#[trigger] search.tried[i]).0
        == config.sources()[i] by {
        assert(asked[i] == search.tried[i].0);
    }
}

/// The sources are asked in the order environment, command, file, inline text, and the fallback
/// only where none of them is configured.
pub proof fn law_order_of_sources(config: HaConfig, i: int, j: int)
    requires
        0 <= i < j < config.sources().len(),
    ensures
        source_rank(config.sources()[i]) < source_rank(config.sources()[j]),
        source_rank(config.sources()[j]) <= 3,
{
    let env = match config.token_env {
        Some(name) => seq![Source::Env(name@)],
        None => Seq::empty(),
    };
    let command = match config.token_command {
        Some(text) => seq![Source::Command(text@)],
        None => Seq::empty(),
    };
    let file = match config.token_file {
        Some(path) => seq![Source::File(path@)],
        None => Seq::empty(),
    };
    let inline = match config.token {
        Some(text) => seq![Source::Inline(text@)],
        None => Seq::empty(),
    };
    assert(config.named_sources() == env + command + file + inline);
}

/// The place of a kind of source in the order.
pub open spec fn source_rank(source: Source) -> int {
    match source {
        Source::Env(_) => 0,
        Source::Command(_) => 1,
        Source::File(_) => 2,
        Source::Inline(_) => 3,
        Source::Fallback => 4,
    }
}

/// A token is never empty and has no white space at its ends.
pub proof fn law_token_is_trimmed(text: Seq<char>)
    ensures
        token_in(text) matches Some(token) ==> token.len() > 0 && !white(token[0]) && !white(
            token.last(),
        ),
{
    law_trimmed_has_no_white_ends(text);
}

/// Whatever a source is found to hold, the token that it yields is not empty and has no white
/// space at its ends.
pub proof fn law_yielded_token_is_trimmed(
    source: Source,
    answer: Result<Seq<char>, Seq<char>>,
)
    ensures
        yielded(source, answer) matches Some(token) ==> token.len() > 0 && !white(token[0])
            && !white(token.last()),
{
    match source {
        Source::Inline(text) => law_token_is_trimmed(text),
        _ => {
            if let Ok(text) = answer {
                law_token_is_trimmed(text);
            }
        },
    }
}

/// A token that was read from what a command printed, or from a file, is yielded as it is.
pub proof fn law_token_that_was_read_is_yielded(text: Seq<char>, source: Source)
    requires
        token_in(text) is Some,
        !(source is Inline),
    ensures
        yielded(source, Ok(token_in(text)->0)) == token_in(text),
{
    law_trimmed_has_no_white_ends(text);
}

/// The sources that are asked are those that the configuration gives, each of them, and the
/// fallback where it gives none.
pub proof fn law_every_configured_source_is_asked(config: HaConfig, source: Source)
    ensures
        config.sources().contains(source) <==> match source {
            Source::Env(name) => config.token_env is Some && config.token_env->0@ == name,
            Source::Command(text) => config.token_command is Some && config.token_command->0@
                == text,
            Source::File(path) => config.token_file is Some && config.token_file->0@ == path,
            Source::Inline(text) => config.token is Some && config.token->0@ == text,
            Source::Fallback => config.token_env is None && config.token_command is None
                && config.token_file is None && config.token is None,
        },
{
    let env = match config.token_env {
        Some(name) => seq![Source::Env(name@)],
        None => Seq::empty(),
    };
    let command = match config.token_command {
        Some(text) => seq![Source::Command(text@)],
        None => Seq::empty(),
    };
    let file = match config.token_file {
        Some(path) => seq![Source::File(path@)],
        None => Seq::empty(),
    };
    let inline = match config.token {
        Some(text) => seq![Source::Inline(text@)],
        None => Seq::empty(),
    };
    let named = config.named_sources();
    assert(named == env + command + file + inline);
    let a = env.len() as int;
    let b = a + command.len();
    let c = b + file.len();
    if config.token_env is Some {
        assert(named[0] == Source::Env(config.token_env->0@));
    }
    if config.token_command is Some {
        assert(named[a] == Source::Command(config.token_command->0@));
    }
    if config.token_file is Some {
        assert(named[b] == Source::File(config.token_file->0@));
    }
    if config.token is Some {
        assert(named[c] == Source::Inline(config.token->0@));
    }
    if named.len() == 0 {
        assert(config.sources()[0] == Source::Fallback);
    }
}

/// What a source yields: the text that it holds, without the white space around it, unless
/// nothing else is in it. A source that gave no text yields nothing. A text in the configuration
/// is its own answer.
pub proof fn law_what_a_source_yields(
    source: Source,
    text: Seq<char>,
    reason: Seq<char>,
    answer: Result<Seq<char>, Seq<char>>,
)
    ensures
        !(source is Inline) && trimmed(text).len() > 0 ==> yielded(source, Ok(text)) == Some(
            trimmed(text),
        ),
        !(source is Inline) && trimmed(text).len() == 0 ==> yielded(source, Ok(text)) is None,
        !(source is Inline) ==> yielded(source, Err(reason)) is None,
        trimmed(text).len() > 0 ==> yielded(Source::Inline(text), answer) == Some(trimmed(text)),
        trimmed(text).len() == 0 ==> yielded(Source::Inline(text), answer) is None,
{
}

/// A source that was asked in vain goes from the sources that are left to those that were tried,
/// with the reason that it gave.
pub proof fn law_source_asked_in_vain_is_kept(
    search: Search,
    reason: Seq<char>,
    text: Seq<char>,
)
    requires
        search.left.len() > 0,
    ensures
        search.passed(Err(reason)).left == search.left.skip(1),
        search.passed(Err(reason)).tried == search.tried + seq![(search.left[0], Some(reason))],
        search.passed(Ok(text)).left == search.left.skip(1),
        search.passed(Ok(text)).tried == search.tried + seq![
            (search.left[0], None::<Seq<char>>),
        ],
{
    assert(search.left.drop_first() =~= search.left.skip(1));
    assert(search.passed(Err(reason)).tried =~= search.tried + seq![
        (search.left[0], Some(reason)),
    ]);
    assert(search.passed(Ok(text)).tried =~= search.tried + seq![
        (search.left[0], None::<Seq<char>>),
    ]);
}

/// A search that asks sources which yield nothing finds nothing.
pub proof fn law_nothing_yielded_nothing_found(
    sources: Seq<Source>,
    answers: Seq<Result<Seq<char>, Seq<char>>>,
)
    requires
        sources.len() <= answers.len(),
        forall|j: int| 0 <= j < sources.len() ==> yielded(#[trigger] sources[j], answers[j]) is None,
    ensures
        found(sources, answers) is None,
    decreases sources.len(),
{
    if sources.len() > 0 {
        assert(yielded(sources[0], answers[0]) is None);
        let s = sources.drop_first();
        let a = answers.drop_first();
        assert forall|j: int| 0 <= j < s.len() implies yielded(#[trigger] s[j], a[j]) is None by {
            assert(s[j] == sources[j + 1]);
        }
        law_nothing_yielded_nothing_found(s, a);
    }
}

/// What a command printed is a token exactly when the command succeeded and printed UTF-8 with
/// something in it besides white space.
pub proof fn law_token_of_a_command(stdout: Seq<u8>)
    ensures
        command_token(false, stdout) == Err::<Seq<char>, CommandError>(CommandError::Failed),
        !valid_utf8(stdout) ==> command_token(true, stdout) == Err::<Seq<char>, CommandError>(
            CommandError::NotUtf8,
        ),
        valid_utf8(stdout) && trimmed(decode_utf8(stdout)).len() == 0 ==> command_token(
            true,
            stdout,
        ) == Err::<Seq<char>, CommandError>(CommandError::Empty),
        valid_utf8(stdout) && trimmed(decode_utf8(stdout)).len() > 0 ==> command_token(true, stdout)
            == Ok::<Seq<char>, CommandError>(trimmed(decode_utf8(stdout))),
{
}

/// A file that anyone but its owner can read, write or run gives no token, whatever it holds. A
/// file that is closed to all others gives what it holds besides white space.
pub proof fn law_token_of_a_file(mode: u32, text: Seq<char>)
    ensures
        mode & 0o040 != 0 || mode & 0o020 != 0 || mode & 0o010 != 0 || mode & 0o004 != 0 || mode
            & 0o002 != 0 || mode & 0o001 != 0 <==> file_token(mode, text) == Err::<
            Seq<char>,
            FileError,
        >(FileError::Open),
        mode & 0o077 == 0 && trimmed(text).len() > 0 ==> file_token(mode, text) == Ok::<
            Seq<char>,
            FileError,
        >(trimmed(text)),
        mode & 0o077 == 0 && trimmed(text).len() == 0 ==> file_token(mode, text) == Err::<
            Seq<char>,
            FileError,
        >(FileError::Empty),
{
    assert((mode & 0o040 != 0 || mode & 0o020 != 0 || mode & 0o010 != 0 || mode & 0o004 != 0 || mode
        & 0o002 != 0 || mode & 0o001 != 0) == (mode & 0o077 != 0)) by (bit_vector);
}

/// The answers, the sources and those tried in vain are taken as they are.
pub proof fn law_answers_are_taken_as_they_are(
    text: String,
    reason: String,
    sources: Seq<TokenSource>,
    tried: Seq<Tried>,
    i: int,
)
    ensures
        answer_view(Ok(text)) == Ok::<Seq<char>, Seq<char>>(text@),
        answer_view(Err(reason)) == Err::<Seq<char>, Seq<char>>(reason@),
        source_views(sources).len() == sources.len(),
        0 <= i < sources.len() ==> source_views(sources)[i] == match sources[i] {
            TokenSource::Env(name) => Source::Env(name@),
            TokenSource::Command(command) => Source::Command(command@),
            TokenSource::File(path) => Source::File(path@),
            TokenSource::Inline(inline) => Source::Inline(inline@),
            TokenSource::Fallback => Source::Fallback,
        },
        tried_views(tried).len() == tried.len(),
        0 <= i < tried.len() ==> tried_views(tried)[i].0 == tried[i].source@ && match tried[i].reason {
            Some(why) => tried_views(tried)[i].1 == Some(why@),
            None => tried_views(tried)[i].1 is None,
        },
{
}

} // verus!
