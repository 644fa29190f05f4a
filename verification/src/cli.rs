//! Text handling of the offline render tool: voice names, command-line
//! arguments, the event list of a request, and the sidecar file name.

use crate::voice::{TrigEvent, Voice};
use vstd::prelude::*;
use vstd::string::*;

verus! {

/// Block size of a render request that does not name one.
pub fn default_block() -> (r: usize)
    ensures
        r == 128,
{
    128
}

/// ASCII lowercase of one character; other characters are unchanged.
pub open spec fn ascii_lower(c: char) -> char {
    if 'A' <= c && c <= 'Z' {
        ((c as u32) + 32) as char
    } else {
        c
    }
}

/// ASCII lowercase of a string.
pub open spec fn ascii_lower_seq(s: Seq<char>) -> Seq<char> {
    s.map_values(|c: char| ascii_lower(c))
}

fn lower_char(c: char) -> (r: char)
    ensures
        r == ascii_lower(c),
{
    if 'A' <= c && c <= 'Z' {
        ((c as u8) + 32) as char
    } else {
        c
    }
}

/// `String::push` from std: appends the character `c` to the end of `s`.
#[verifier::external_body]
fn push_char(s: &mut String, c: char)
    ensures
        final(s)@ == old(s)@.push(c),
{
    s.push(c);
}

/// ASCII-lowercase copy of `s`; non-ASCII characters are kept as they are.
pub fn ascii_lowercase(s: &str) -> (r: String)
    ensures
        r@ == ascii_lower_seq(s@),
{
    let n = s.unicode_len();
    let mut r = String::new();
    for i in 0..n
        invariant
            n == s@.len(),
            r@ == ascii_lower_seq(s@.take(i as int)),
    {
        let c = s.get_char(i);
        push_char(&mut r, lower_char(c));
        assert(ascii_lower_seq(s@.take(i + 1)) =~= ascii_lower_seq(s@.take(i as int)).push(
            ascii_lower(c),
        ));
    }
    assert(s@.take(n as int) =~= s@);
    r
}

/// Whether two strings hold the same characters.
pub fn str_eq(a: &str, b: &str) -> (r: bool)
    ensures
        r == (a@ == b@),
{
    let n = a.unicode_len();
    let m = b.unicode_len();
    if n != m {
        return false;
    }
    for i in 0..n
        invariant
            n == a@.len(),
            m == b@.len(),
            n == m,
            forall|j: int| 0 <= j < i ==> a@[j] == b@[j],
    {
        if a.get_char(i) != b.get_char(i) {
            return false;
        }
    }
    assert(a@ =~= b@);
    true
}

/// The name of a voice on the command line and in request files.
pub open spec fn voice_name(v: Voice) -> Seq<char> {
    match v {
        Voice::Bd => "bd"@,
        Voice::Sd => "sd"@,
        Voice::Lt => "lt"@,
        Voice::Ht => "ht"@,
        Voice::Cy => "cy"@,
        Voice::Oh => "oh"@,
        Voice::Ch => "ch"@,
    }
}

/// The message for an unrecognised voice name (given in lowercase).
pub open spec fn unknown_voice_message(lowered: Seq<char>) -> Seq<char> {
    "unknown voice '"@ + lowered + "'"@
}

/// The voice a name refers to, ignoring ASCII case, if any.
pub open spec fn voice_named(s: Seq<char>) -> Option<Voice> {
    let l = ascii_lower_seq(s);
    if l == "bd"@ {
        Some(Voice::Bd)
    } else if l == "sd"@ {
        Some(Voice::Sd)
    } else if l == "lt"@ {
        Some(Voice::Lt)
    } else if l == "ht"@ {
        Some(Voice::Ht)
    } else if l == "cy"@ {
        Some(Voice::Cy)
    } else if l == "oh"@ {
        Some(Voice::Oh)
    } else if l == "ch"@ {
        Some(Voice::Ch)
    } else {
        None
    }
}

/// Parse a voice name, ignoring ASCII case (`"BD"`, `"bd"`, `"Bd"` all name
/// the bass drum). An unknown name is an error that quotes it in lowercase.
pub fn parse_voice(s: &str) -> (r: Result<Voice, String>)
    ensures
        r matches Ok(v) ==> voice_named(s@) == Some(v),
        r matches Err(e) ==> voice_named(s@) is None && e@ == unknown_voice_message(
            ascii_lower_seq(s@),
        ),
{
    let lowered = ascii_lowercase(s);
    let l = lowered.as_str();
    if str_eq(l, "bd") {
        Ok(Voice::Bd)
    } else if str_eq(l, "sd") {
        Ok(Voice::Sd)
    } else if str_eq(l, "lt") {
        Ok(Voice::Lt)
    } else if str_eq(l, "ht") {
        Ok(Voice::Ht)
    } else if str_eq(l, "cy") {
        Ok(Voice::Cy)
    } else if str_eq(l, "oh") {
        Ok(Voice::Oh)
    } else if str_eq(l, "ch") {
        Ok(Voice::Ch)
    } else {
        let mut msg = String::from_str("unknown voice '");
        msg.append(l);
        msg.append("'");
        Err(msg)
    }
}

/// Every voice is found again from its own name, in any ASCII case mix of it.
pub proof fn lemma_voice_name_roundtrip(v: Voice)
    ensures
        voice_named(voice_name(v)) == Some(v),
{
    reveal_strlit("bd");
    reveal_strlit("sd");
    reveal_strlit("lt");
    reveal_strlit("ht");
    reveal_strlit("cy");
    reveal_strlit("oh");
    reveal_strlit("ch");
    let n = voice_name(v);
    assert(n.len() == 2);
    assert(ascii_lower(n[0]) == n[0]);
    assert(ascii_lower(n[1]) == n[1]);
    assert(ascii_lower_seq(n) =~= n);
    assert("bd"@[0] == 'b' && "sd"@[0] == 's' && "lt"@[0] == 'l' && "ht"@[0] == 'h');
    assert("cy"@[0] == 'c' && "oh"@[0] == 'o' && "ch"@[0] == 'c');
    assert("ht"@[1] == 't' && "ch"@[1] == 'h' && "cy"@[1] == 'y');
}

/// The sidecar metrics file that goes with a WAV file: the WAV path with its
/// extension (from the last `.`) replaced by `.json`, or with `.json` appended
/// when it has none.
pub open spec fn sidecar_path(wav: Seq<char>) -> Seq<char> {
    let k = last_index_of(wav, '.');
    if k >= 0 {
        wav.take(k) + ".json"@
    } else {
        wav + ".json"@
    }
}

/// Index of the last occurrence of `c` in `s`, or -1 when there is none.
pub open spec fn last_index_of(s: Seq<char>, c: char) -> int
    decreases s.len(),
{
    if s.len() == 0 {
        -1
    } else if s.last() == c {
        s.len() - 1
    } else {
        last_index_of(s.drop_last(), c)
    }
}

proof fn lemma_last_index_of_bounds(s: Seq<char>, c: char)
    ensures
        -1 <= last_index_of(s, c) < s.len(),
        last_index_of(s, c) >= 0 ==> s[last_index_of(s, c)] == c,
    decreases s.len(),
{
    if s.len() > 0 && s.last() != c {
        lemma_last_index_of_bounds(s.drop_last(), c);
    }
}

/// The path of the sidecar metrics file for the WAV file at `wav`.
pub fn sidecar_path_for(wav: &str) -> (r: String)
    ensures
        r@ == sidecar_path(wav@),
{
    let n = wav.unicode_len();
    let mut last: Option<usize> = None;
    for i in 0..n
        invariant
            n == wav@.len(),
            match last {
                Some(k) => k as int == last_index_of(wav@.take(i as int), '.'),
                None => last_index_of(wav@.take(i as int), '.') == -1,
            },
    {
        assert(wav@.take(i + 1).drop_last() =~= wav@.take(i as int));
        if wav.get_char(i) == '.' {
            last = Some(i);
        }
    }
    assert(wav@.take(n as int) =~= wav@);
    proof {
        lemma_last_index_of_bounds(wav@, '.');
    }
    match last {
        Some(k) => {
            let prefix = wav.substring_char(0, k);
            assert(prefix@ =~= wav@.take(k as int));
            String::from_str(prefix).concat(".json")
        },
        None => String::from_str(wav).concat(".json"),
    }
}

/// One hit of a render request as written in the request file: the voice is
/// still a name.
pub struct EventSpec {
    pub sample_index: usize,
    pub voice: String,
    pub accent: bool,
}

/// The hits of a request's event list with their voice names resolved, or the
/// error for the first unknown name.
pub open spec fn resolve_events(specs: Seq<EventSpec>) -> Result<Seq<TrigEvent>, Seq<char>>
    decreases specs.len(),
{
    if specs.len() == 0 {
        Ok(Seq::empty())
    } else {
        match resolve_events(specs.drop_last()) {
            Err(m) => Err(m),
            Ok(prev) => {
                let e = specs.last();
                match voice_named(e.voice@) {
                    Some(v) => Ok(
                        prev.push(TrigEvent { sample_index: e.sample_index, voice: v, accent: e.accent }),
                    ),
                    None => Err(unknown_voice_message(ascii_lower_seq(e.voice@))),
                }
            },
        }
    }
}

proof fn lemma_resolve_error_persists(specs: Seq<EventSpec>, k: int, m: Seq<char>)
    requires
        0 <= k <= specs.len(),
        resolve_events(specs.take(k)) == Err::<Seq<TrigEvent>, Seq<char>>(m),
    ensures
        resolve_events(specs) == Err::<Seq<TrigEvent>, Seq<char>>(m),
    decreases specs.len() - k,
{
    if k < specs.len() {
        assert(specs.take(k + 1).drop_last() =~= specs.take(k));
        lemma_resolve_error_persists(specs, k + 1, m);
    } else {
        assert(specs.take(k) =~= specs);
    }
}

/// Resolve the voice names of a request's event list, in order, stopping at
/// the first unknown name.
pub fn trig_events(specs: &Vec<EventSpec>) -> (r: Result<Vec<TrigEvent>, String>)
    ensures
        r matches Ok(v) ==> resolve_events(specs@) == Ok::<Seq<TrigEvent>, Seq<char>>(v@),
        r matches Err(e) ==> resolve_events(specs@) == Err::<Seq<TrigEvent>, Seq<char>>(e@),
{
    let mut out: Vec<TrigEvent> = Vec::with_capacity(specs.len());
    let n = specs.len();
    for i in 0..n
        invariant
            n == specs@.len(),
            resolve_events(specs@.take(i as int)) == Ok::<Seq<TrigEvent>, Seq<char>>(out@),
    {
        let e = &specs[i];
        assert(specs@.take(i + 1).drop_last() =~= specs@.take(i as int));
        match parse_voice(e.voice.as_str()) {
            Ok(v) => {
                out.push(TrigEvent { sample_index: e.sample_index, voice: v, accent: e.accent });
            },
            Err(msg) => {
                proof {
                    lemma_resolve_error_persists(specs@, i + 1, msg@);
                }
                return Err(msg);
            },
        }
    }
    assert(specs@.take(n as int) =~= specs@);
    Ok(out)
}

/// What the render tool was asked to do.
pub enum CliRequest {
    /// Print the usage line and stop.
    Help,
    /// Render the request read from `input_path` (standard input when `None`)
    /// into the WAV file `output_path`.
    Render { input_path: Option<String>, output_path: String },
}

/// The meaning of a command line, over plain character sequences.
pub ghost enum ArgsOutcome {
    Help,
    Render { input_path: Option<Seq<char>>, output_path: Seq<char> },
    Fail { message: Seq<char> },
}

/// Reading the arguments from position `i` on, with the input and output paths
/// chosen so far: `-o`/`--out` takes the next argument as the output path (an
/// error when there is none), `-h`/`--help` asks for the usage line at once,
/// and any other argument becomes the input path (the last one wins).
pub open spec fn scan_args(
    args: Seq<Seq<char>>,
    i: int,
    input: Option<Seq<char>>,
    output: Seq<char>,
) -> ArgsOutcome
    decreases args.len() - i,
{
    if i >= args.len() || i < 0 {
        ArgsOutcome::Render { input_path: input, output_path: output }
    } else if args[i] == "-o"@ || args[i] == "--out"@ {
        if i + 1 < args.len() {
            scan_args(args, i + 2, input, args[i + 1])
        } else {
            ArgsOutcome::Fail { message: "-o requires a path"@ }
        }
    } else if args[i] == "-h"@ || args[i] == "--help"@ {
        ArgsOutcome::Help
    } else {
        scan_args(args, i + 1, Some(args[i]), output)
    }
}

/// The meaning of a whole command line (program name excluded); the output
/// path defaults to `out.wav`.
pub open spec fn args_outcome(args: Seq<Seq<char>>) -> ArgsOutcome {
    scan_args(args, 0, None, "out.wav"@)
}

/// A parsed command line, over plain character sequences.
pub open spec fn request_outcome(r: Result<CliRequest, String>) -> ArgsOutcome {
    match r {
        Ok(CliRequest::Help) => ArgsOutcome::Help,
        Ok(CliRequest::Render { input_path, output_path }) => ArgsOutcome::Render {
            input_path: match input_path {
                Some(p) => Some(p@),
                None => None,
            },
            output_path: output_path@,
        },
        Err(e) => ArgsOutcome::Fail { message: e@ },
    }
}

/// The arguments as character sequences.
pub open spec fn args_view(args: Seq<String>) -> Seq<Seq<char>> {
    args.map_values(|a: String| a@)
}

/// Parse the render tool's command line (without the program name).
pub fn parse_args(args: &Vec<String>) -> (r: Result<CliRequest, String>)
    ensures
        request_outcome(r) == args_outcome(args_view(args@)),
{
    let ghost av = args_view(args@);
    let n = args.len();
    let mut input_path: Option<String> = None;
    let mut output_path = String::from_str("out.wav");
    let mut i: usize = 0;
    while i < n
        invariant
            n == args@.len(),
            av == args_view(args@),
            i <= n,
            args_outcome(av) == scan_args(
                av,
                i as int,
                match input_path {
                    Some(p) => Some(p@),
                    None => None,
                },
                output_path@,
            ),
        decreases n - i,
    {
        let a = args[i].as_str();
        if str_eq(a, "-o") || str_eq(a, "--out") {
            if i + 1 < n {
                output_path = args[i + 1].clone();
                i = i + 2;
            } else {
                return Err(String::from_str("-o requires a path"));
            }
        } else if str_eq(a, "-h") || str_eq(a, "--help") {
            return Ok(CliRequest::Help);
        } else {
            input_path = Some(args[i].clone());
            i = i + 1;
        }
    }
    Ok(CliRequest::Render { input_path, output_path })
}

/// Lowercasing twice is lowercasing once.
proof fn lemma_ascii_lower_idempotent(s: Seq<char>)
    ensures
        ascii_lower_seq(ascii_lower_seq(s)) == ascii_lower_seq(s),
{
    assert forall|i: int| 0 <= i < s.len() implies ascii_lower(ascii_lower(s[i])) == ascii_lower(
        s[i],
    ) by {
        let c = s[i];
        if 'A' <= c && c <= 'Z' {
            assert('a' <= ascii_lower(c) && ascii_lower(c) <= 'z');
        }
    }
    assert(ascii_lower_seq(ascii_lower_seq(s)) =~= ascii_lower_seq(s));
}

/// Voice-name lookup ignores ASCII case: a name and its lowercase form name
/// the same voice (or none), so every case variant of a voice's name names
/// that voice.
pub proof fn lemma_voice_named_ignores_case(s: Seq<char>, v: Voice)
    ensures
        voice_named(s) == voice_named(ascii_lower_seq(s)),
        ascii_lower_seq(s) == voice_name(v) ==> voice_named(s) == Some(v),
{
    lemma_ascii_lower_idempotent(s);
    lemma_voice_name_roundtrip(v);
    if ascii_lower_seq(s) == voice_name(v) {
        lemma_ascii_lower_idempotent(voice_name(v));
    }
}

/// Resolving a request's event list keeps every hit, in order, with its onset
/// and accent, and gives it the voice its name refers to; it fails exactly
/// when some name refers to no voice, and then with the message for the first
/// such name.
pub proof fn lemma_resolve_events_keeps_hits(specs: Seq<EventSpec>)
    ensures
        resolve_events(specs) is Ok <==> forall|k: int|
            0 <= k < specs.len() ==> (#[trigger] voice_named(specs[k].voice@)) is Some,
        resolve_events(specs) matches Ok(ev) ==> {
            &&& ev.len() == specs.len()
            &&& forall|k: int|
                0 <= k < specs.len() ==> {
                    &&& (#[trigger] ev[k]).sample_index == specs[k].sample_index
                    &&& ev[k].accent == specs[k].accent
                    &&& voice_named(specs[k].voice@) == Some(ev[k].voice)
                }
        },
        resolve_events(specs) matches Err(m) ==> exists|k: int|
            0 <= k < specs.len() && (#[trigger] voice_named(specs[k].voice@)) is None && m
                == unknown_voice_message(ascii_lower_seq(specs[k].voice@)) && forall|j: int|
                0 <= j < k ==> (#[trigger] voice_named(specs[j].voice@)) is Some,
    decreases specs.len(),
{
    if specs.len() > 0 {
        let p = specs.drop_last();
        let n = specs.len() - 1;
        lemma_resolve_events_keeps_hits(p);
        assert forall|k: int| 0 <= k < p.len() implies p[k] == specs[k] by {}
        match resolve_events(p) {
            Ok(prev) => {
                match voice_named(specs[n].voice@) {
                    Some(v) => {
                        let ev = prev.push(
                            TrigEvent { sample_index: specs[n].sample_index, voice: v, accent: specs[n].accent },
                        );
                        assert forall|k: int| 0 <= k < specs.len() implies {
                            &&& (#[trigger] ev[k]).sample_index == specs[k].sample_index
                            &&& ev[k].accent == specs[k].accent
                            &&& voice_named(specs[k].voice@) == Some(ev[k].voice)
                        } by {
                            if k < n {
                                assert(p[k] == specs[k]);
                            }
                        }
                        assert forall|k: int| 0 <= k < specs.len() implies (#[trigger] voice_named(
                            specs[k].voice@,
                        )) is Some by {
                            if k < n {
                                assert(p[k] == specs[k]);
                            }
                        }
                    },
                    None => {
                        assert(voice_named(specs[n].voice@) is None);
                        assert forall|j: int| 0 <= j < n implies (#[trigger] voice_named(
                            specs[j].voice@,
                        )) is Some by {
                            assert(p[j] == specs[j]);
                        }
                    },
                }
            },
            Err(m) => {
                let k = choose|k: int|
                    0 <= k < p.len() && (#[trigger] voice_named(p[k].voice@)) is None && m
                        == unknown_voice_message(ascii_lower_seq(p[k].voice@)) && forall|j: int|
                        0 <= j < k ==> (#[trigger] voice_named(p[j].voice@)) is Some;
                assert(specs[k] == p[k]);
                assert forall|j: int| 0 <= j < k implies (#[trigger] voice_named(
                    specs[j].voice@,
                )) is Some by {
                    assert(p[j] == specs[j]);
                }
                assert(!(voice_named(specs[k].voice@) is Some));
            },
        }
    }
}

} // verus!
