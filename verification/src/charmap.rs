//! The character map: which code a piece of text stands for, which text a
//! code stands for, and the names of the commands.
use crate::text::{parse_radix, spec_parse_radix, to_chars};
use std::collections::HashMap;
use vstd::hash_map::StringHashMap;
use vstd::prelude::*;
use vstd::std_specs::hash::*;

verus! {

broadcast use group_hash_axioms;

/// The three mappings of a character map, and the index of the command
/// names, as mathematical maps.
pub struct CharmapView {
    /// Text segment to code: single characters, bracketed aliases and
    /// two-character escapes.
    pub encode: Map<Seq<char>, u16>,
    /// Code to text segment.
    pub decode: Map<u16, Seq<char>>,
    /// Command code to command name.
    pub commands: Map<u16, Seq<char>>,
    /// Command name to the code that was first given that name.
    pub command_codes: Map<Seq<char>, u16>,
}

impl CharmapView {
    /// The index of command names agrees with the command map: every
    /// indexed name leads to a code of that name, and every name in use
    /// is indexed.
    pub open spec fn wf(self) -> bool {
        &&& forall|name: Seq<char>| #[trigger]
            self.command_codes.contains_key(name) ==> self.commands.contains_key(
                self.command_codes[name],
            ) && self.commands[self.command_codes[name]] == name
        &&& forall|code: u16| #[trigger]
            self.commands.contains_key(code) ==> self.command_codes.contains_key(
                self.commands[code],
            )
    }

    /// The map after `code` was given the text `text`: the text stands
    /// for the code unless it stood for one already. An empty text
    /// changes nothing.
    pub open spec fn with_char(self, code: u16, text: Seq<char>) -> CharmapView {
        if text.len() == 0 {
            self
        } else {
            CharmapView {
                encode: if self.encode.contains_key(text) {
                    self.encode
                } else {
                    self.encode.insert(text, code)
                },
                decode: self.decode.insert(code, text),
                ..self
            }
        }
    }

    /// Whether the map takes `alias`: it has the shape of an alias and
    /// stands for no code yet.
    pub open spec fn takes_alias(self, alias: Seq<char>) -> bool {
        spec_alias_shape(alias) && !self.encode.contains_key(alias)
    }

    /// The map after the alias `alias` was offered for `code`.
    pub open spec fn with_alias(self, code: u16, alias: Seq<char>) -> CharmapView {
        if self.takes_alias(alias) {
            CharmapView { encode: self.encode.insert(alias, code), ..self }
        } else {
            self
        }
    }

    /// The map after the name `name` was offered for the command `code`:
    /// a code that has a name keeps it, and of several codes with one
    /// name the first stays the one that the name stands for.
    pub open spec fn with_command(self, code: u16, name: Seq<char>) -> CharmapView {
        if self.commands.contains_key(code) {
            self
        } else {
            CharmapView {
                commands: self.commands.insert(code, name),
                command_codes: if self.command_codes.contains_key(name) {
                    self.command_codes
                } else {
                    self.command_codes.insert(name, code)
                },
                ..self
            }
        }
    }

    /// The map without any entry.
    pub open spec fn empty() -> CharmapView {
        CharmapView {
            encode: Map::empty(),
            decode: Map::empty(),
            commands: Map::empty(),
            command_codes: Map::empty(),
        }
    }
}

/// What a map holds under a key, if anything.
pub open spec fn spec_lookup<K, V>(m: Map<K, V>, k: K) -> Option<V> {
    if m.contains_key(k) {
        Some(m[k])
    } else {
        None
    }
}

/// Whether an alias may enter the map: one character, or a run that
/// begins with `[` and ends with `]`.
pub open spec fn spec_alias_shape(alias: Seq<char>) -> bool {
    alias.len() == 1 || (alias.len() > 1 && alias[0] == '[' && alias.last() == ']')
}

/// The character map. Built once, read-only afterwards.
pub struct Charmap {
    encode_map: StringHashMap<u16>,
    decode_map: HashMap<u16, String>,
    command_map: HashMap<u16, String>,
    command_codes: StringHashMap<u16>,
}

impl View for Charmap {
    type V = CharmapView;

    closed spec fn view(&self) -> CharmapView {
        CharmapView {
            encode: self.encode_map@,
            decode: self.decode_map@.map_values(|s: String| s@),
            commands: self.command_map@.map_values(|s: String| s@),
            command_codes: self.command_codes@,
        }
    }
}

impl Charmap {
    /// A character map without any entry.
    pub fn new() -> (charmap: Charmap)
        ensures
            charmap@ == CharmapView::empty(),
            charmap@.wf(),
    {
        let charmap = Charmap {
            encode_map: StringHashMap::new(),
            decode_map: HashMap::new(),
            command_map: HashMap::new(),
            command_codes: StringHashMap::new(),
        };
        assert(charmap@.decode =~= Map::empty());
        assert(charmap@.commands =~= Map::empty());
        charmap
    }

    /// Gives `code` the text `text`, and `text` the code `code` unless it
    /// has one already. An empty text changes nothing.
    pub fn add_char(&mut self, code: u16, text: &str)
        ensures
            final(self)@ == old(self)@.with_char(code, text@),
    {
        if text.unicode_len() == 0 {
            return ;
        }
        self.decode_map.insert(code, text.to_owned());
        if !self.encode_map.contains_key(text) {
            self.encode_map.insert(text.to_owned(), code);
        }
        assert(self@.decode =~= old(self)@.decode.insert(code, text@));
    }

    /// Gives the alias `alias` the code `code`, and says whether it did.
    /// An alias is refused when it is empty, when it has a code already, or
    /// when it is longer than one character and not wrapped in brackets.
    pub fn add_alias(&mut self, code: u16, alias: &str) -> (added: bool)
        ensures
            added == old(self)@.takes_alias(alias@),
            final(self)@ == old(self)@.with_alias(code, alias@),
    {
        let n = alias.unicode_len();
        if n == 0 {
            return false;
        }
        if self.encode_map.contains_key(alias) {
            return false;
        }
        if n > 1 && !(alias.get_char(0) == '[' && alias.get_char(n - 1) == ']') {
            return false;
        }
        self.encode_map.insert(alias.to_owned(), code);
        true
    }

    /// Names the command `code`, and says whether it did. A code that has
    /// a name keeps it. Of several codes with one name, the first stays
    /// the one that the name stands for.
    pub fn add_command(&mut self, code: u16, name: &str) -> (added: bool)
        requires
            old(self)@.wf(),
        ensures
            final(self)@.wf(),
            added == !old(self)@.commands.contains_key(code),
            final(self)@ == old(self)@.with_command(code, name@),
    {
        if self.command_map.contains_key(&code) {
            return false;
        }
        self.command_map.insert(code, name.to_owned());
        if !self.command_codes.contains_key(name) {
            self.command_codes.insert(name.to_owned(), code);
        }
        assert(self@.commands =~= old(self)@.commands.insert(code, name@));
        proof {
            lemma_with_command_wf(old(self)@, code, name@);
        }
        true
    }

    /// The code of a text segment.
    pub fn encode_lookup(&self, text: &str) -> (code: Option<u16>)
        ensures
            code == spec_lookup(self@.encode, text@),
    {
        match self.encode_map.get(text) {
            Some(code) => Some(*code),
            None => None,
        }
    }

    /// The text of a code.
    pub fn decode_lookup(&self, code: u16) -> (text: Option<&String>)
        ensures
            text is Some == self@.decode.contains_key(code),
            text is Some ==> text->0@ == self@.decode[code],
    {
        self.decode_map.get(&code)
    }

    /// The name of a command code.
    pub fn command_name(&self, code: u16) -> (name: Option<&String>)
        ensures
            name is Some == self@.commands.contains_key(code),
            name is Some ==> name->0@ == self@.commands[code],
    {
        self.command_map.get(&code)
    }

    /// The code that a command name stands for.
    pub fn command_code(&self, name: &str) -> (code: Option<u16>)
        ensures
            code == spec_lookup(self@.command_codes, name@),
    {
        match self.command_codes.get(name) {
            Some(code) => Some(*code),
            None => None,
        }
    }
}

/// Naming a command keeps the index of command names in agreement with
/// the command map.
pub proof fn lemma_with_command_wf(map: CharmapView, code: u16, name: Seq<char>)
    requires
        map.wf(),
    ensures
        map.with_command(code, name).wf(),
{
    let after = map.with_command(code, name);
    if !map.commands.contains_key(code) {
        assert forall|other: Seq<char>| #[trigger]
            after.command_codes.contains_key(other) implies after.commands.contains_key(
            after.command_codes[other],
        ) && after.commands[after.command_codes[other]] == other by {
            if map.command_codes.contains_key(other) {
                assert(map.commands.contains_key(map.command_codes[other]));
            }
        }
        assert forall|c: u16| #[trigger]
            after.commands.contains_key(c) implies after.command_codes.contains_key(
            after.commands[c],
        ) by {
            if c != code {
                assert(map.commands.contains_key(c));
            }
        }
    }
}

/// In a well-formed map a name is indexed exactly when some command has
/// it, and the code it stands for has that name.
pub proof fn lemma_command_index(charmap: CharmapView, name: Seq<char>)
    requires
        charmap.wf(),
    ensures
        charmap.command_codes.contains_key(name) <==> exists|code: u16|
            charmap.commands.contains_key(code) && #[trigger] charmap.commands[code] == name,
        charmap.command_codes.contains_key(name) ==> charmap.commands[charmap.command_codes[name]]
            == name,
{
    if charmap.command_codes.contains_key(name) {
        let code = charmap.command_codes[name];
        assert(charmap.commands.contains_key(code) && charmap.commands[code] == name);
    }
}

/// One entry of the character table of a charmap file: the code, in
/// hexadecimal, the text of the code, and other texts that stand for it.
#[derive(Clone, Debug, PartialEq, Eq)]
pub struct RawCharEntry {
    pub code: String,
    pub text: Option<String>,
    pub aliases: Option<Vec<String>>,
}

/// One entry of the command table of a charmap file: the code, in
/// hexadecimal, and the name of the command.
#[derive(Clone, Debug, PartialEq, Eq)]
pub struct RawCommandEntry {
    pub code: String,
    pub name: String,
}

/// An alias of a charmap file that the character map did not take: it
/// is empty, it stands for a code already, or it is longer than one
/// character and not wrapped in brackets.
#[derive(Clone, Copy, Debug, PartialEq, Eq)]
pub struct RejectedAlias {
    /// The position of the entry in the character table.
    pub entry: usize,
    /// The position of the alias among the aliases of the entry.
    pub alias: usize,
}

/// Why a charmap file gives no character map.
#[derive(Clone, Copy, Debug, PartialEq, Eq)]
pub enum CharmapError {
    /// A code of the character table is no 16-bit hexadecimal number.
    InvalidCharKey,
    /// A code of the command table is no 16-bit hexadecimal number.
    InvalidCommandKey,
}

/// The code that a key of a charmap file writes, in hexadecimal, if it
/// writes one of 16 bits.
pub open spec fn spec_key_code(key: Seq<char>) -> Option<u16> {
    match spec_parse_radix(key, 16) {
        Some(value) => if value <= 0xFFFF {
            Some(value as u16)
        } else {
            None
        },
        None => None,
    }
}

/// Whether every code of the character table can be read.
pub open spec fn spec_char_keys_valid(entries: Seq<RawCharEntry>) -> bool {
    forall|i: int| 0 <= i < entries.len() ==> spec_key_code((#[trigger] entries[i]).code@) is Some
}

/// Whether every code of the command table can be read.
pub open spec fn spec_command_keys_valid(commands: Seq<RawCommandEntry>) -> bool {
    forall|i: int|
        0 <= i < commands.len() ==> spec_key_code((#[trigger] commands[i]).code@) is Some
}

/// The map with the texts of the first `n` entries.
pub open spec fn spec_with_chars(map: CharmapView, entries: Seq<RawCharEntry>, n: int) -> CharmapView
    decreases n,
{
    if n <= 0 {
        map
    } else {
        let before = spec_with_chars(map, entries, n - 1);
        match entries[n - 1].text {
            Some(text) => before.with_char(spec_key_code(entries[n - 1].code@)->0, text@),
            None => before,
        }
    }
}

/// The map with the first `n` of the aliases of one code.
pub open spec fn spec_with_aliases_of(
    map: CharmapView,
    code: u16,
    aliases: Seq<String>,
    n: int,
) -> CharmapView
    decreases n,
{
    if n <= 0 {
        map
    } else {
        spec_with_aliases_of(map, code, aliases, n - 1).with_alias(code, aliases[n - 1]@)
    }
}

/// The map with the aliases of the first `n` entries.
pub open spec fn spec_with_aliases(map: CharmapView, entries: Seq<RawCharEntry>, n: int) -> CharmapView
    decreases n,
{
    if n <= 0 {
        map
    } else {
        let before = spec_with_aliases(map, entries, n - 1);
        match entries[n - 1].aliases {
            Some(aliases) => spec_with_aliases_of(
                before,
                spec_key_code(entries[n - 1].code@)->0,
                aliases@,
                aliases@.len() as int,
            ),
            None => before,
        }
    }
}

/// Those of the first `n` aliases of one code that the map does not
/// take, each offered to the map with the aliases before it.
pub open spec fn spec_rejected_of(
    map: CharmapView,
    code: u16,
    aliases: Seq<String>,
    entry: int,
    n: int,
) -> Seq<RejectedAlias>
    decreases n,
{
    if n <= 0 {
        Seq::empty()
    } else if spec_with_aliases_of(map, code, aliases, n - 1).takes_alias(aliases[n - 1]@) {
        spec_rejected_of(map, code, aliases, entry, n - 1)
    } else {
        spec_rejected_of(map, code, aliases, entry, n - 1).push(
            RejectedAlias { entry: entry as usize, alias: (n - 1) as usize },
        )
    }
}

/// The aliases of the first `n` entries that the map does not take.
pub open spec fn spec_rejected(map: CharmapView, entries: Seq<RawCharEntry>, n: int) -> Seq<
    RejectedAlias,
>
    decreases n,
{
    if n <= 0 {
        Seq::empty()
    } else {
        match entries[n - 1].aliases {
            Some(aliases) => spec_rejected(map, entries, n - 1) + spec_rejected_of(
                spec_with_aliases(map, entries, n - 1),
                spec_key_code(entries[n - 1].code@)->0,
                aliases@,
                n - 1,
                aliases@.len() as int,
            ),
            None => spec_rejected(map, entries, n - 1),
        }
    }
}

/// The map with the names of the first `n` commands.
pub open spec fn spec_with_commands(
    map: CharmapView,
    commands: Seq<RawCommandEntry>,
    n: int,
) -> CharmapView
    decreases n,
{
    if n <= 0 {
        map
    } else {
        spec_with_commands(map, commands, n - 1).with_command(
            spec_key_code(commands[n - 1].code@)->0,
            commands[n - 1].name@,
        )
    }
}

/// The character map of a charmap file: first the text of every code,
/// then the aliases, then the commands, each table in its order. A text
/// or an alias that stands for a code already keeps its code.
pub open spec fn spec_build(entries: Seq<RawCharEntry>, commands: Seq<RawCommandEntry>) -> CharmapView {
    spec_with_commands(
        spec_with_aliases(
            spec_with_chars(CharmapView::empty(), entries, entries.len() as int),
            entries,
            entries.len() as int,
        ),
        commands,
        commands.len() as int,
    )
}

/// Reads a key of a charmap file.
pub fn key_code(key: &str) -> (code: Option<u16>)
    ensures
        code == spec_key_code(key@),
{
    let chars = to_chars(key);
    match parse_radix(chars.as_slice(), 16) {
        Some(value) => if value <= 0xFFFF {
            Some(value as u16)
        } else {
            None
        },
        None => None,
    }
}

/// Reads the codes of the character table; gives nothing if one of them
/// cannot be read.
fn char_codes(entries: &Vec<RawCharEntry>) -> (codes: Option<Vec<u16>>)
    ensures
        codes is Some <==> spec_char_keys_valid(entries@),
        codes is Some ==> codes->0.len() == entries.len() && forall|i: int|
            0 <= i < entries.len() ==> Some(#[trigger] codes->0[i]) == spec_key_code(
                entries[i].code@,
            ),
{
    let mut codes: Vec<u16> = Vec::with_capacity(entries.len());
    let mut i: usize = 0;
    while i < entries.len()
        invariant
            i <= entries.len(),
            codes.len() == i,
            forall|j: int|
                0 <= j < i ==> Some(#[trigger] codes[j]) == spec_key_code(entries[j].code@),
        decreases entries.len() - i,
    {
        match key_code(entries[i].code.as_str()) {
            Some(code) => {
                codes.push(code);
            },
            None => {
                assert(!(spec_key_code(entries[i as int].code@) is Some));
                return None;
            },
        }
        i += 1;
    }
    assert forall|j: int| 0 <= j < entries.len() implies spec_key_code(
        (#[trigger] entries[j]).code@,
    ) is Some by {
        assert(Some(codes[j]) == spec_key_code(entries[j].code@));
    }
    Some(codes)
}

/// Builds the character map of a charmap file from its two tables, and
/// reports the aliases that it did not take.
///
/// Gives `InvalidCharKey` where a code of the character table cannot be
/// read, and otherwise `InvalidCommandKey` where a code of the command
/// table cannot.
pub fn build_charmap(
    entries: &Vec<RawCharEntry>,
    commands: &Vec<RawCommandEntry>,
    rejected: &mut Vec<RejectedAlias>,
) -> (r: Result<Charmap, CharmapError>)
    ensures
        r is Ok <==> spec_char_keys_valid(entries@) && spec_command_keys_valid(commands@),
        r is Ok ==> r->Ok_0@ == spec_build(entries@, commands@) && r->Ok_0@.wf(),
        r is Ok ==> final(rejected)@ == old(rejected)@ + spec_rejected(
            spec_with_chars(CharmapView::empty(), entries@, entries@.len() as int),
            entries@,
            entries@.len() as int,
        ),
        r is Err ==> final(rejected)@ == old(rejected)@,
        !spec_char_keys_valid(entries@) ==> r == Err::<Charmap, CharmapError>(
            CharmapError::InvalidCharKey,
        ),
        spec_char_keys_valid(entries@) && !spec_command_keys_valid(commands@) ==> r == Err::<
            Charmap,
            CharmapError,
        >(CharmapError::InvalidCommandKey),
{
    let codes = match char_codes(entries) {
        Some(codes) => codes,
        None => {
            return Err(CharmapError::InvalidCharKey);
        },
    };
    let mut charmap = Charmap::new();
    let mut i: usize = 0;
    while i < entries.len()
        invariant
            i <= entries.len(),
            codes.len() == entries.len(),
            forall|j: int|
                0 <= j < entries.len() ==> Some(#[trigger] codes[j]) == spec_key_code(
                    entries[j].code@,
                ),
            charmap@ == spec_with_chars(CharmapView::empty(), entries@, i as int),
            charmap@.wf(),
            spec_char_keys_valid(entries@),
        decreases entries.len() - i,
    {
        assert(Some(codes[i as int]) == spec_key_code(entries[i as int].code@));
        match &entries[i].text {
            Some(text) => {
                charmap.add_char(codes[i], text.as_str());
            },
            None => {},
        }
        i += 1;
    }
    let ghost with_chars = charmap@;
    let mut refused: Vec<RejectedAlias> = Vec::new();
    i = 0;
    while i < entries.len()
        invariant
            i <= entries.len(),
            refused@ == spec_rejected(with_chars, entries@, i as int),
            codes.len() == entries.len(),
            forall|j: int|
                0 <= j < entries.len() ==> Some(#[trigger] codes[j]) == spec_key_code(
                    entries[j].code@,
                ),
            charmap@ == spec_with_aliases(with_chars, entries@, i as int),
            charmap@.wf(),
            spec_char_keys_valid(entries@),
        decreases entries.len() - i,
    {
        assert(Some(codes[i as int]) == spec_key_code(entries[i as int].code@));
        match &entries[i].aliases {
            Some(aliases) => {
                let ghost before = charmap@;
                let ghost refused_before = refused@;
                let mut k: usize = 0;
                while k < aliases.len()
                    invariant
                        k <= aliases.len(),
                        refused@ == refused_before + spec_rejected_of(
                            before,
                            codes[i as int],
                            aliases@,
                            i as int,
                            k as int,
                        ),
                        charmap@ == spec_with_aliases_of(
                            before,
                            codes[i as int],
                            aliases@,
                            k as int,
                        ),
                        charmap@.wf(),
                        i < codes.len(),
                    decreases aliases.len() - k,
                {
                    let ghost so_far = spec_rejected_of(
                        before,
                        codes[i as int],
                        aliases@,
                        i as int,
                        k as int,
                    );
                    if !charmap.add_alias(codes[i], aliases[k].as_str()) {
                        refused.push(RejectedAlias { entry: i, alias: k });
                        assert(refused@ =~= refused_before + so_far.push(
                            RejectedAlias { entry: i, alias: k },
                        ));
                    }
                    k += 1;
                }
            },
            None => {},
        }
        i += 1;
    }
    let ghost with_aliases = charmap@;
    let mut k: usize = 0;
    while k < commands.len()
        invariant
            k <= commands.len(),
            charmap@ == spec_with_commands(with_aliases, commands@, k as int),
            charmap@.wf(),
            spec_char_keys_valid(entries@),
            rejected@ == old(rejected)@,
            forall|j: int|
                0 <= j < k ==> spec_key_code((#[trigger] commands[j]).code@) is Some,
        decreases commands.len() - k,
    {
        match key_code(commands[k].code.as_str()) {
            Some(code) => {
                charmap.add_command(code, commands[k].name.as_str());
            },
            None => {
                assert(!(spec_key_code(commands[k as int].code@) is Some));
                return Err(CharmapError::InvalidCommandKey);
            },
        }
        k += 1;
    }
    rejected.append(&mut refused);
    Ok(charmap)
}

} // verus!
