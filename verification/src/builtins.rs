//! The built-in identifiers of the P4 core library and the v1model
//! architecture, and the keywords offered for completion.
use vstd::prelude::*;
use ropey::Rope;
use crate::protocol::{
    item_view, item_views, plain_item, CompletionItem, CompletionItemKind, ItemView, Position,
    SemanticTokenType,
};
use crate::strings::{owned, str_eq};
use crate::text::{rope_len_lines, rope_line, rope_text, text_lines};
use crate::words::{extract_word_and_prefix, word_at};
use crate::strings::opt_str;

verus! {

/// The semantic token type of each built-in identifier of the core library
/// and the v1model architecture.
pub const BUILTIN_TOKEN_TYPES: [(&'static str, SemanticTokenType); 61] = [
    ("NoAction", SemanticTokenType::Function),
    ("accept", SemanticTokenType::Keyword),
    ("reject", SemanticTokenType::Keyword),
    ("exit", SemanticTokenType::Keyword),
    ("default", SemanticTokenType::Keyword),
    ("switch", SemanticTokenType::Keyword),
    ("verify", SemanticTokenType::Keyword),
    ("packet_in", SemanticTokenType::Type),
    ("packet_out", SemanticTokenType::Type),
    ("void", SemanticTokenType::Type),
    ("tuple", SemanticTokenType::Type),
    ("match_kind", SemanticTokenType::Type),
    ("NoError", SemanticTokenType::EnumMember),
    ("PacketTooShort", SemanticTokenType::EnumMember),
    ("NoMatch", SemanticTokenType::EnumMember),
    ("StackOutOfBounds", SemanticTokenType::EnumMember),
    ("HeaderTooShort", SemanticTokenType::EnumMember),
    ("ParserTimeout", SemanticTokenType::EnumMember),
    ("ParserInvalidArgument", SemanticTokenType::EnumMember),
    ("exact", SemanticTokenType::EnumMember),
    ("ternary", SemanticTokenType::EnumMember),
    ("lpm", SemanticTokenType::EnumMember),
    ("extract", SemanticTokenType::Method),
    ("lookahead", SemanticTokenType::Method),
    ("advance", SemanticTokenType::Method),
    ("length", SemanticTokenType::Method),
    ("emit", SemanticTokenType::Method),
    ("isValid", SemanticTokenType::Method),
    ("setValid", SemanticTokenType::Method),
    ("setInvalid", SemanticTokenType::Method),
    ("static_assert", SemanticTokenType::Function),
    ("range", SemanticTokenType::EnumMember),
    ("optional", SemanticTokenType::EnumMember),
    ("selector", SemanticTokenType::EnumMember),
    ("standard_metadata_t", SemanticTokenType::Struct),
    ("CounterType", SemanticTokenType::Type),
    ("MeterType", SemanticTokenType::Type),
    ("CloneType", SemanticTokenType::Type),
    ("HashAlgorithm", SemanticTokenType::Type),
    ("standard_metadata", SemanticTokenType::Variable),
    ("packets", SemanticTokenType::EnumMember),
    ("bytes", SemanticTokenType::EnumMember),
    ("packets_and_bytes", SemanticTokenType::EnumMember),
    ("counter", SemanticTokenType::Function),
    ("direct_counter", SemanticTokenType::Function),
    ("meter", SemanticTokenType::Function),
    ("direct_meter", SemanticTokenType::Function),
    ("register", SemanticTokenType::Function),
    ("action_profile", SemanticTokenType::Function),
    ("action_selector", SemanticTokenType::Function),
    ("Checksum16", SemanticTokenType::Function),
    ("random", SemanticTokenType::Function),
    ("digest", SemanticTokenType::Function),
    ("resubmit", SemanticTokenType::Function),
    ("recirculate", SemanticTokenType::Function),
    ("clone", SemanticTokenType::Function),
    ("clone3", SemanticTokenType::Function),
    ("truncate", SemanticTokenType::Function),
    ("hash", SemanticTokenType::Function),
    ("mark_to_drop", SemanticTokenType::Function),
    ("log_msg", SemanticTokenType::Function),
];

/// The hover text of each built-in identifier.
pub const BUILTIN_HOVERS: [(&'static str, &'static str); 53] = [
    (
        "NoAction",
        "```p4\n@noWarn(\"unused\")\naction NoAction() {}\n```\nBuilt-in action that does nothing (core.p4).",
    ),
    (
        "accept",
        "```p4\naccept\n```\nBuilt-in parser state indicating successful parsing.",
    ),
    (
        "reject",
        "```p4\nreject\n```\nBuilt-in parser state indicating parsing failure.",
    ),
    (
        "packet_in",
        "```p4\nextern packet_in {\n    void extract<T>(out T hdr);\n    void extract<T>(out T variableSizeHeader, in bit<32> variableFieldSizeInBits);\n    T lookahead<T>();\n    void advance(in bit<32> sizeInBits);\n    bit<32> length();\n}\n```\nBuilt-in extern representing incoming network packets (core.p4).",
    ),
    (
        "packet_out",
        "```p4\nextern packet_out {\n    void emit<T>(in T hdr);\n}\n```\nBuilt-in extern for constructing output packets (core.p4).",
    ),
    (
        "void",
        "```p4\nvoid\n```\nBuilt-in type representing no value.",
    ),
    (
        "tuple",
        "```p4\ntuple<T1, T2, ...>\n```\nBuilt-in tuple type.",
    ),
    (
        "match_kind",
        "```p4\nmatch_kind\n```\nBuilt-in type for table key match types (exact, ternary, lpm).",
    ),
    (
        "NoError",
        "```p4\nerror.NoError\n```\nNo error (core.p4).",
    ),
    (
        "PacketTooShort",
        "```p4\nerror.PacketTooShort\n```\nNot enough bits in packet for 'extract' (core.p4).",
    ),
    (
        "NoMatch",
        "```p4\nerror.NoMatch\n```\n'select' expression has no matches (core.p4).",
    ),
    (
        "StackOutOfBounds",
        "```p4\nerror.StackOutOfBounds\n```\nReference to invalid element of a header stack (core.p4).",
    ),
    (
        "HeaderTooShort",
        "```p4\nerror.HeaderTooShort\n```\nExtracting too many bits into a varbit field (core.p4).",
    ),
    (
        "ParserTimeout",
        "```p4\nerror.ParserTimeout\n```\nParser execution time limit exceeded (core.p4).",
    ),
    (
        "ParserInvalidArgument",
        "```p4\nerror.ParserInvalidArgument\n```\nParser operation was called with a value not supported by the implementation (core.p4).",
    ),
    (
        "exact",
        "```p4\nmatch_kind exact\n```\nMatch bits exactly (core.p4).",
    ),
    (
        "ternary",
        "```p4\nmatch_kind ternary\n```\nTernary match, using a mask (core.p4).",
    ),
    (
        "lpm",
        "```p4\nmatch_kind lpm\n```\nLongest-prefix match (core.p4).",
    ),
    (
        "extract",
        "```p4\nvoid extract<T>(out T hdr)\nvoid extract<T>(out T variableSizeHeader, in bit<32> variableFieldSizeInBits)\n```\nRead a header from the packet and advance the cursor (core.p4).",
    ),
    (
        "lookahead",
        "```p4\nT lookahead<T>()\n```\nRead bits from the packet without advancing the cursor (core.p4).",
    ),
    (
        "advance",
        "```p4\nvoid advance(in bit<32> sizeInBits)\n```\nAdvance the packet cursor by the specified number of bits (core.p4).",
    ),
    (
        "length",
        "```p4\nbit<32> length()\n```\nReturn packet length in bytes (core.p4).",
    ),
    (
        "emit",
        "```p4\nvoid emit<T>(in T hdr)\n```\nWrite header into the output packet, advancing cursor (core.p4).",
    ),
    (
        "isValid",
        "```p4\nbool isValid()\n```\nReturn true if the header is valid.",
    ),
    (
        "setValid",
        "```p4\nvoid setValid()\n```\nMark the header as valid.",
    ),
    (
        "setInvalid",
        "```p4\nvoid setInvalid()\n```\nMark the header as invalid.",
    ),
    (
        "verify",
        "```p4\nextern void verify(in bool check, in error toSignal)\n```\nCheck a predicate in the parser; if false, set parser error and transition to reject (core.p4).",
    ),
    (
        "static_assert",
        "```p4\nextern bool static_assert(bool check, string message)\nextern bool static_assert(bool check)\n```\nEvaluate a boolean expression at compile time; stop compilation if false (core.p4).",
    ),
    (
        "exit",
        "```p4\nexit\n```\nStatement that causes immediate exit from the enclosing control block.",
    ),
    (
        "this",
        "```p4\nthis\n```\nReference to the enclosing object.",
    ),
    (
        "default",
        "```p4\ndefault\n```\nDefault case in select/switch statements.",
    ),
    (
        "range",
        "```p4\nmatch_kind range\n```\nRange match (v1model).",
    ),
    (
        "optional",
        "```p4\nmatch_kind optional\n```\nEither an exact match or a wildcard (v1model).",
    ),
    (
        "selector",
        "```p4\nmatch_kind selector\n```\nUsed for implementing dynamic_action_selection (v1model).",
    ),
    (
        "standard_metadata_t",
        "```p4\nstruct standard_metadata_t {\n    bit<9> ingress_port;\n    bit<9> egress_spec;\n    bit<9> egress_port;\n    // ... additional fields\n}\n```\nStandard metadata structure (v1model).",
    ),
    (
        "standard_metadata",
        "```p4\nstandard_metadata_t standard_metadata\n```\nStandard metadata variable passed to ingress/egress controls (v1model).",
    ),
    (
        "CounterType",
        "```p4\nenum CounterType {\n    packets,\n    bytes,\n    packets_and_bytes\n}\n```\nCounter type enumeration (v1model).",
    ),
    (
        "MeterType",
        "```p4\nenum MeterType {\n    packets,\n    bytes\n}\n```\nMeter type enumeration (v1model).",
    ),
    (
        "counter",
        "```p4\nextern counter<I> {\n    counter(bit<32> size, CounterType type);\n    void count(in I index);\n}\n```\nCounter extern (v1model).",
    ),
    (
        "direct_counter",
        "```p4\nextern direct_counter {\n    direct_counter(CounterType type);\n    void count();\n}\n```\nDirect counter associated with a table (v1model).",
    ),
    (
        "meter",
        "```p4\nextern meter<I> {\n    meter(bit<32> size, MeterType type);\n    void execute_meter<T>(in I index, out T result);\n}\n```\nMeter extern (v1model).",
    ),
    (
        "direct_meter",
        "```p4\nextern direct_meter<T> {\n    direct_meter(MeterType type);\n    void read(out T result);\n}\n```\nDirect meter associated with a table (v1model).",
    ),
    (
        "register",
        "```p4\nextern register<T, I> {\n    register(bit<32> size);\n    void read(out T result, in I index);\n    void write(in I index, in T value);\n}\n```\nStateful register array (v1model).",
    ),
    (
        "mark_to_drop",
        "```p4\nextern void mark_to_drop(inout standard_metadata_t sm)\n```\nMark the packet to be dropped (v1model).",
    ),
    (
        "hash",
        "```p4\nextern void hash<O, T, D, M>(out O result, in HashAlgorithm algo, in T base, in D data, in M max)\n```\nCompute a hash function (v1model).",
    ),
    (
        "random",
        "```p4\nextern void random<T>(out T result, in T lo, in T hi)\n```\nGenerate a random number in [lo, hi] (v1model).",
    ),
    (
        "digest",
        "```p4\nextern void digest<T>(in bit<32> receiver, in T data)\n```\nSend a digest message to the control plane (v1model).",
    ),
    (
        "resubmit",
        "```p4\nextern void resubmit<T>(in T data)\n```\nResubmit the packet to ingress (v1model).",
    ),
    (
        "recirculate",
        "```p4\nextern void recirculate<T>(in T data)\n```\nRecirculate the packet (v1model).",
    ),
    (
        "clone",
        "```p4\nextern void clone(in CloneType type, in bit<32> session)\n```\nClone the packet (v1model).",
    ),
    (
        "clone3",
        "```p4\nextern void clone3<T>(in CloneType type, in bit<32> session, in T data)\n```\nClone the packet with metadata (v1model).",
    ),
    (
        "truncate",
        "```p4\nextern void truncate(in bit<32> length)\n```\nTruncate the packet to specified length (v1model).",
    ),
    (
        "log_msg",
        "```p4\nextern void log_msg(string msg)\nextern void log_msg<T>(string msg, in T data)\n```\nLog a message for debugging (v1model).",
    ),
];

/// The keywords offered for completion, with their descriptions.
pub const KEYWORDS: [(&'static str, &'static str); 40] = [
    ("action", "Define an action"),
    ("apply", "Apply block"),
    ("control", "Define a control block"),
    ("default_action", "Set default action for table"),
    ("else", "Else branch"),
    ("exact", "Exact match type"),
    ("extern", "Extern declaration"),
    ("header", "Define a header type"),
    ("if", "Conditional statement"),
    ("in", "Input direction"),
    ("inout", "Input/output direction"),
    ("key", "Table key definition"),
    ("lpm", "Longest prefix match"),
    ("out", "Output direction"),
    ("package", "Package declaration"),
    ("parser", "Define a parser"),
    ("range", "Range match type"),
    ("return", "Return statement"),
    ("select", "Select statement in parser"),
    ("size", "Table size"),
    ("state", "Parser state"),
    ("struct", "Define a struct type"),
    ("table", "Define a table"),
    ("ternary", "Ternary match type"),
    ("transition", "Parser state transition"),
    ("typedef", "Type definition"),
    ("abstract", "Abstract declaration modifier"),
    ("default", "Default case/action"),
    ("enum", "Define an enumeration type"),
    ("exit", "Exit the current control flow"),
    ("header_union", "Define a header union type"),
    ("list", "List type"),
    ("match_kind", "Match kind type for table keys"),
    ("switch", "Switch statement"),
    ("this", "Reference to current instance"),
    ("type", "Type alias declaration"),
    ("value_set", "Parser value set"),
    ("verify", "Verify statement in parser"),
    ("void", "Void return type"),
    ("tuple", "Tuple type"),
];

/// The built-in type names offered for completion.
pub const BUILTIN_TYPE_NAMES: [&'static str; 7] = [
    "bit",
    "bool",
    "error",
    "int",
    "varbit",
    "void",
    "tuple",
];

/// The built-in declarations offered for completion, with their kinds and
/// descriptions.
pub const BUILTIN_ITEMS: [(&'static str, CompletionItemKind, &'static str); 52] = [
    ("NoAction", CompletionItemKind::Function, "Built-in action (core.p4)"),
    ("accept", CompletionItemKind::Keyword, "Built-in parser state"),
    ("reject", CompletionItemKind::Keyword, "Built-in parser state"),
    ("packet_in", CompletionItemKind::Class, "Extern for incoming packets (core.p4)"),
    ("packet_out", CompletionItemKind::Class, "Extern for outgoing packets (core.p4)"),
    ("void", CompletionItemKind::TypeParameter, "Built-in type"),
    ("tuple", CompletionItemKind::TypeParameter, "Built-in tuple type"),
    ("match_kind", CompletionItemKind::TypeParameter, "Built-in type for match kinds"),
    ("string", CompletionItemKind::TypeParameter, "Built-in string type"),
    ("NoError", CompletionItemKind::EnumMember, "No error (core.p4)"),
    ("PacketTooShort", CompletionItemKind::EnumMember, "Not enough bits in packet (core.p4)"),
    ("NoMatch", CompletionItemKind::EnumMember, "No match in select (core.p4)"),
    ("StackOutOfBounds", CompletionItemKind::EnumMember, "Invalid stack element (core.p4)"),
    ("HeaderTooShort", CompletionItemKind::EnumMember, "Varbit extraction overflow (core.p4)"),
    ("ParserTimeout", CompletionItemKind::EnumMember, "Parser timeout (core.p4)"),
    ("ParserInvalidArgument", CompletionItemKind::EnumMember, "Invalid parser argument (core.p4)"),
    ("extract", CompletionItemKind::Method, "Extract header from packet (core.p4)"),
    ("lookahead", CompletionItemKind::Method, "Peek at packet bits (core.p4)"),
    ("advance", CompletionItemKind::Method, "Advance packet cursor (core.p4)"),
    ("emit", CompletionItemKind::Method, "Emit header to packet (core.p4)"),
    ("isValid", CompletionItemKind::Method, "Check if header is valid"),
    ("setValid", CompletionItemKind::Method, "Mark header as valid"),
    ("setInvalid", CompletionItemKind::Method, "Mark header as invalid"),
    ("static_assert", CompletionItemKind::Function, "Compile-time assertion (core.p4)"),
    ("standard_metadata_t", CompletionItemKind::Struct, "Standard metadata structure (v1model)"),
    ("standard_metadata", CompletionItemKind::Variable, "Standard metadata variable (v1model)"),
    ("CounterType", CompletionItemKind::Enum, "Counter type enum (v1model)"),
    ("MeterType", CompletionItemKind::Enum, "Meter type enum (v1model)"),
    ("HashAlgorithm", CompletionItemKind::Enum, "Hash algorithm enum (v1model)"),
    ("CloneType", CompletionItemKind::Enum, "Clone type enum (v1model)"),
    ("optional", CompletionItemKind::EnumMember, "Optional match kind (v1model)"),
    ("selector", CompletionItemKind::EnumMember, "Selector match kind (v1model)"),
    ("packets", CompletionItemKind::EnumMember, "Count packets (v1model)"),
    ("bytes", CompletionItemKind::EnumMember, "Count bytes (v1model)"),
    ("packets_and_bytes", CompletionItemKind::EnumMember, "Count both (v1model)"),
    ("counter", CompletionItemKind::Class, "Counter extern (v1model)"),
    ("direct_counter", CompletionItemKind::Class, "Direct counter extern (v1model)"),
    ("meter", CompletionItemKind::Class, "Meter extern (v1model)"),
    ("direct_meter", CompletionItemKind::Class, "Direct meter extern (v1model)"),
    ("register", CompletionItemKind::Class, "Register extern (v1model)"),
    ("action_profile", CompletionItemKind::Class, "Action profile extern (v1model)"),
    ("action_selector", CompletionItemKind::Class, "Action selector extern (v1model)"),
    ("mark_to_drop", CompletionItemKind::Function, "Mark packet to drop (v1model)"),
    ("hash", CompletionItemKind::Function, "Compute hash (v1model)"),
    ("random", CompletionItemKind::Function, "Generate random number (v1model)"),
    ("digest", CompletionItemKind::Function, "Send digest to control plane (v1model)"),
    ("resubmit", CompletionItemKind::Function, "Resubmit packet (v1model)"),
    ("recirculate", CompletionItemKind::Function, "Recirculate packet (v1model)"),
    ("clone", CompletionItemKind::Function, "Clone packet (v1model)"),
    ("clone3", CompletionItemKind::Function, "Clone packet with metadata (v1model)"),
    ("truncate", CompletionItemKind::Function, "Truncate packet (v1model)"),
    ("log_msg", CompletionItemKind::Function, "Log debug message (v1model)"),
];

/// The value listed for `name` in a table of named entries: the first entry
/// at or after `i` with that name.
pub open spec fn lookup_from<T>(t: Seq<(&'static str, T)>, name: Seq<char>, i: int) -> Option<T>
    decreases t.len() - i,
{
    if i < 0 || i >= t.len() {
        None
    } else if t[i].0@ == name {
        Some(t[i].1)
    } else {
        lookup_from(t, name, i + 1)
    }
}

/// The value listed for `name` in a table of named entries.
pub open spec fn table_lookup<T>(t: Seq<(&'static str, T)>, name: Seq<char>) -> Option<T> {
    lookup_from(t, name, 0)
}

/// The semantic token type of a built-in identifier.
pub open spec fn builtin_type_of(name: Seq<char>) -> Option<SemanticTokenType> {
    table_lookup(BUILTIN_TOKEN_TYPES@, name)
}

/// The hover text of a built-in identifier.
pub open spec fn builtin_hover_of(name: Seq<char>) -> Option<Seq<char>> {
    match table_lookup(BUILTIN_HOVERS@, name) {
        Some(h) => Some(h@),
        None => None,
    }
}

/// The semantic token type of a built-in identifier, if `name` is one.
fn builtin_semantic_token_type(name: &str) -> (r: Option<SemanticTokenType>)
    ensures
        r == builtin_type_of(name@),
{
    let t = BUILTIN_TOKEN_TYPES;
    let mut i: usize = 0;
    while i < t.len()
        invariant
            i <= t@.len(),
            t@ == BUILTIN_TOKEN_TYPES@,
            lookup_from(t@, name@, i as int) == builtin_type_of(name@),
        decreases t@.len() - i,
    {
        if str_eq(t[i].0, name) {
            return Some(t[i].1);
        }
        i += 1;
    }
    None
}

/// The hover text of a built-in identifier, if `name` is one.
fn builtin_hover(name: &str) -> (r: Option<&'static str>)
    ensures
        match r {
            Some(h) => builtin_hover_of(name@) == Some(h@),
            None => builtin_hover_of(name@) is None,
        },
{
    let t = BUILTIN_HOVERS;
    let mut i: usize = 0;
    while i < t.len()
        invariant
            i <= t@.len(),
            t@ == BUILTIN_HOVERS@,
            lookup_from(t@, name@, i as int) == table_lookup(BUILTIN_HOVERS@, name@),
        decreases t@.len() - i,
    {
        if str_eq(t[i].0, name) {
            return Some(t[i].1);
        }
        i += 1;
    }
    None
}

/// The semantic token type of a built-in identifier, if `name` is one.
pub fn builtin_token_type_for_identifier(name: &str) -> (r: Option<SemanticTokenType>)
    ensures
        r == builtin_type_of(name@),
{
    builtin_semantic_token_type(name)
}

/// The identifier under `position` in `text`, if the line exists.
pub open spec fn word_under(text: Seq<char>, position: Position) -> Option<Seq<char>> {
    if position.line as int >= text_lines(text).len() {
        None
    } else {
        word_at(text_lines(text)[position.line as int], position.character as int)
    }
}

/// The hover text of the built-in identifier under `position`.
pub fn get_builtin_hover(content: &Rope, position: Position) -> (r: Option<String>)
    ensures
        opt_str(r) == match word_under(rope_text(*content), position) {
            Some(w) => builtin_hover_of(w),
            None => None,
        },
{
    let line_idx = position.line as usize;
    let col_idx = position.character as usize;
    if line_idx >= rope_len_lines(content) {
        return None;
    }
    let line_str = rope_line(content, line_idx);
    let (word, _) = extract_word_and_prefix(line_str.as_str(), col_idx);
    let word = match word {
        Some(w) => w,
        None => return None,
    };
    match builtin_hover(word.as_str()) {
        Some(h) => Some(owned(h)),
        None => None,
    }
}

/// The keyword completions: the keywords, then the built-in types, then the
/// built-in declarations.
pub open spec fn keyword_items() -> Seq<ItemView> {
    KEYWORDS@.map_values(
        |k: (&'static str, &'static str)| plain_item(k.0@, CompletionItemKind::Keyword, k.1@),
    ) + BUILTIN_TYPE_NAMES@.map_values(
        |t: &'static str| plain_item(t@, CompletionItemKind::TypeParameter, "Built-in type"@),
    ) + BUILTIN_ITEMS@.map_values(
        |b: (&'static str, CompletionItemKind, &'static str)| plain_item(b.0@, b.1, b.2@),
    )
}

/// A completion item with only a label, a kind and a detail.
pub fn simple_completion(label: &str, kind: CompletionItemKind, detail: &str) -> (c: CompletionItem)
    ensures
        item_view(c) == plain_item(label@, kind, detail@),
{
    CompletionItem {
        label: owned(label),
        kind: Some(kind),
        detail: Some(owned(detail)),
        documentation: None,
        insert_text: None,
    }
}

/// Appends the keyword, built-in type and built-in declaration completions.
pub fn add_keyword_completions(completions: &mut Vec<CompletionItem>)
    ensures
        item_views(final(completions)@) == item_views(old(completions)@) + keyword_items(),
{
    let ghost base = item_views(completions@);
    let ghost kws = KEYWORDS@.map_values(
        |k: (&'static str, &'static str)| plain_item(k.0@, CompletionItemKind::Keyword, k.1@),
    );
    let ghost tys = BUILTIN_TYPE_NAMES@.map_values(
        |t: &'static str| plain_item(t@, CompletionItemKind::TypeParameter, "Built-in type"@),
    );
    let ghost bis = BUILTIN_ITEMS@.map_values(
        |b: (&'static str, CompletionItemKind, &'static str)| plain_item(b.0@, b.1, b.2@),
    );
    let keywords = KEYWORDS;
    let mut i: usize = 0;
    while i < keywords.len()
        invariant
            i <= keywords@.len(),
            keywords@ == KEYWORDS@,
            kws == KEYWORDS@.map_values(
                |k: (&'static str, &'static str)| plain_item(k.0@, CompletionItemKind::Keyword, k.1@),
            ),
            item_views(completions@) =~= base + kws.take(i as int),
        decreases keywords@.len() - i,
    {
        let c = simple_completion(keywords[i].0, CompletionItemKind::Keyword, keywords[i].1);
        let ghost prev = completions@;
        completions.push(c);
        assert(item_views(completions@) =~= item_views(prev).push(item_view(c)));
        assert(kws.take(i as int + 1) =~= kws.take(i as int).push(kws[i as int]));
        i += 1;
    }
    assert(kws.take(keywords@.len() as int) =~= kws);
    let types = BUILTIN_TYPE_NAMES;
    let mut i: usize = 0;
    while i < types.len()
        invariant
            i <= types@.len(),
            types@ == BUILTIN_TYPE_NAMES@,
            tys == BUILTIN_TYPE_NAMES@.map_values(
                |t: &'static str| plain_item(t@, CompletionItemKind::TypeParameter, "Built-in type"@),
            ),
            item_views(completions@) =~= base + kws + tys.take(i as int),
        decreases types@.len() - i,
    {
        let c = simple_completion(types[i], CompletionItemKind::TypeParameter, "Built-in type");
        let ghost prev = completions@;
        completions.push(c);
        assert(item_views(completions@) =~= item_views(prev).push(item_view(c)));
        assert(tys.take(i as int + 1) =~= tys.take(i as int).push(tys[i as int]));
        i += 1;
    }
    assert(tys.take(types@.len() as int) =~= tys);
    let builtins = BUILTIN_ITEMS;
    let mut i: usize = 0;
    while i < builtins.len()
        invariant
            i <= builtins@.len(),
            builtins@ == BUILTIN_ITEMS@,
            bis == BUILTIN_ITEMS@.map_values(
                |b: (&'static str, CompletionItemKind, &'static str)| plain_item(b.0@, b.1, b.2@),
            ),
            item_views(completions@) =~= base + kws + tys + bis.take(i as int),
        decreases builtins@.len() - i,
    {
        let c = simple_completion(builtins[i].0, builtins[i].1, builtins[i].2);
        let ghost prev = completions@;
        completions.push(c);
        assert(item_views(completions@) =~= item_views(prev).push(item_view(c)));
        assert(bis.take(i as int + 1) =~= bis.take(i as int).push(bis[i as int]));
        i += 1;
    }
    assert(bis.take(builtins@.len() as int) =~= bis);
    assert(base + kws + tys + bis =~= base + keyword_items());
}

/// The keyword, built-in type and built-in declaration completions.
pub fn get_keyword_completions() -> (r: Vec<CompletionItem>)
    ensures
        item_views(r@) == keyword_items(),
{
    let mut completions: Vec<CompletionItem> = Vec::new();
    add_keyword_completions(&mut completions);
    assert(item_views(Seq::<CompletionItem>::empty()) =~= Seq::<ItemView>::empty());
    assert(Seq::<ItemView>::empty() + keyword_items() =~= keyword_items());
    completions
}

} // verus!
