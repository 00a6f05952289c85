use vstd::prelude::*;
use vstd::utf8::{decode_utf8, valid_utf8};

use crate::named_map::NamedMap;

verus! {

/// How a rule file is to be read and written.  Every field that is `None`
/// takes the converter's default (the input is detected, the output is
/// Mihomo text in the behavior that suits it).
#[derive(Debug, Clone)]
pub struct RuleConvertOptions {
    pub input_target: Option<String>,
    pub input_format: Option<String>,
    pub input_behavior: Option<String>,
    pub output_target: Option<String>,
    pub output_format: Option<String>,
    pub output_behavior: Option<String>,
}

impl Default for RuleConvertOptions {
    /// All options left to the converter.
    fn default() -> (options: Self)
        ensures
            options.input_target is None,
            options.input_format is None,
            options.input_behavior is None,
            options.output_target is None,
            options.output_format is None,
            options.output_behavior is None,
    {
        RuleConvertOptions {
            input_target: None,
            input_format: None,
            input_behavior: None,
            output_target: None,
            output_format: None,
            output_behavior: None,
        }
    }
}

/// What is known of one converted output.
#[derive(Debug, Clone)]
pub struct RuleOutputInfo {
    pub behavior: Option<String>,
    pub format: String,
    pub count: u32,
}

impl View for RuleOutputInfo {
    type V = (Option<Seq<char>>, Seq<char>, u32);

    open spec fn view(&self) -> (Option<Seq<char>>, Seq<char>, u32) {
        (
            match self.behavior {
                Some(b) => Some(b@),
                None => None,
            },
            self.format@,
            self.count,
        )
    }
}

/// A rule that the converter could not carry over, and why.
#[derive(Debug, Clone)]
pub struct RuleSkippedItem {
    pub rule: String,
    pub reason: String,
}

/// The converted rules: the text of each output and what is known of it, both
/// under the output's behavior name, and the rules that were skipped.
#[derive(Debug, Clone)]
pub struct RuleStringResult {
    pub kind: String,
    pub outputs: NamedMap<String>,
    pub info: NamedMap<RuleOutputInfo>,
    pub skipped: Vec<RuleSkippedItem>,
}

/// One output of the converter: the name of its behavior, the name of its
/// format, how many rules it holds and its bytes.
#[derive(Debug, Clone)]
pub struct RuleOutput {
    pub behavior: String,
    pub format: String,
    pub count: usize,
    pub bytes: Vec<u8>,
}

/// An output whose bytes are not UTF-8.
#[derive(Debug, Clone)]
pub struct InvalidUtf8Output {
    /// The output's behavior name.
    pub name: String,
    /// What the UTF-8 decoder reported.
    pub detail: String,
}

/// What std's UTF-8 decoder reports for bytes that are not UTF-8.
pub uninterp spec fn utf8_error_text(bytes: Seq<u8>) -> Seq<char>;

/// Decodes `bytes` as UTF-8 with `std::str::from_utf8`: it succeeds exactly on
/// well-formed UTF-8 and then gives the characters that the bytes encode;
/// otherwise it gives the decoder's message (its `Display` text).
#[verifier::external_body]
fn utf8_to_string(bytes: &[u8]) -> (text: Result<String, String>)
    ensures
        text is Ok <==> valid_utf8(bytes@),
        text matches Ok(s) ==> s@ == decode_utf8(bytes@),
        text matches Err(m) ==> m@ == utf8_error_text(bytes@),
{
    match std::str::from_utf8(bytes) {
        Ok(s) => Ok(s.to_owned()),
        Err(e) => Err(e.to_string()),
    }
}

/// The text of each output, under its behavior name; a later output with the
/// same name replaces an earlier one.
pub open spec fn output_texts(outputs: Seq<RuleOutput>) -> Map<Seq<char>, Seq<char>>
    decreases outputs.len(),
{
    if outputs.len() == 0 {
        Map::empty()
    } else {
        output_texts(outputs.drop_last()).insert(
            outputs.last().behavior@,
            decode_utf8(outputs.last().bytes@),
        )
    }
}

/// What is known of each output, under its behavior name: the name itself, the
/// format and the rule count cut to 32 bits.
pub open spec fn output_infos(outputs: Seq<RuleOutput>) -> Map<
    Seq<char>,
    (Option<Seq<char>>, Seq<char>, u32),
>
    decreases outputs.len(),
{
    if outputs.len() == 0 {
        Map::empty()
    } else {
        let o = outputs.last();
        output_infos(outputs.drop_last()).insert(
            o.behavior@,
            (Some(o.behavior@), o.format@, o.count as u32),
        )
    }
}

/// Every output is UTF-8.
pub open spec fn all_outputs_utf8(outputs: Seq<RuleOutput>) -> bool {
    forall|i: int| 0 <= i < outputs.len() ==> valid_utf8(#[trigger] outputs[i].bytes@)
}

/// `i` is the first output that is not UTF-8.
pub open spec fn first_invalid_output(outputs: Seq<RuleOutput>, i: int) -> bool {
    &&& 0 <= i < outputs.len()
    &&& !valid_utf8(outputs[i].bytes@)
    &&& all_outputs_utf8(outputs.take(i))
}

/// The map of string values seen through the strings' views.
pub open spec fn text_view(m: Map<Seq<char>, String>) -> Map<Seq<char>, Seq<char>> {
    m.map_values(|s: String| s@)
}

/// The map of output infos seen through their views.
pub open spec fn info_view(m: Map<Seq<char>, RuleOutputInfo>) -> Map<
    Seq<char>,
    (Option<Seq<char>>, Seq<char>, u32),
> {
    m.map_values(|i: RuleOutputInfo| i@)
}

/// Collects the converter's outputs into a result of kind "rules": each output
/// is decoded as UTF-8 and stored with what is known of it under its behavior
/// name.  The first output that is not UTF-8 ends the work with an error that
/// names it.
pub fn collect_rule_outputs(outputs: Vec<RuleOutput>, skipped: Vec<RuleSkippedItem>) -> (result:
    Result<RuleStringResult, InvalidUtf8Output>)
    ensures
        result is Ok <==> all_outputs_utf8(outputs@),
        result matches Ok(r) ==> {
            &&& r.kind@ == "rules"@
            &&& text_view(r.outputs@) == output_texts(outputs@)
            &&& info_view(r.info@) == output_infos(outputs@)
            &&& r.skipped@ == skipped@
        },
        result matches Err(e) ==> exists|i: int|
            first_invalid_output(outputs@, i) && e.name@ == outputs@[i].behavior@ && e.detail@
                == utf8_error_text(outputs@[i].bytes@),
{
    let mut texts: NamedMap<String> = NamedMap::new();
    let mut infos: NamedMap<RuleOutputInfo> = NamedMap::new();
    let mut i: usize = 0;
    assert(outputs@.take(0) =~= Seq::<RuleOutput>::empty());
    assert(text_view(texts@) =~= Map::<Seq<char>, Seq<char>>::empty());
    assert(info_view(infos@) =~= Map::<Seq<char>, (Option<Seq<char>>, Seq<char>, u32)>::empty());
    while i < outputs.len()
        invariant
            i <= outputs@.len(),
            all_outputs_utf8(outputs@.take(i as int)),
            text_view(texts@) == output_texts(outputs@.take(i as int)),
            info_view(infos@) == output_infos(outputs@.take(i as int)),
        decreases outputs@.len() - i,
    {
        let output = &outputs[i];
        let ghost prefix = outputs@.take(i + 1);
        assert(prefix.drop_last() =~= outputs@.take(i as int));
        assert(prefix.last() == outputs@[i as int]);
        match utf8_to_string(output.bytes.as_slice()) {
            Ok(text) => {
                let name = output.behavior.clone();
                let info = RuleOutputInfo {
                    behavior: Some(output.behavior.clone()),
                    format: output.format.clone(),
                    count: output.count as u32,
                };
                let ghost before_infos = infos@;
                let ghost before_texts = texts@;
                infos.insert(output.behavior.clone(), info);
                texts.insert(name, text);
                assert(text_view(texts@) =~= text_view(before_texts).insert(
                    output.behavior@,
                    decode_utf8(output.bytes@),
                ));
                assert(info_view(infos@) =~= info_view(before_infos).insert(
                    output.behavior@,
                    (Some(output.behavior@), output.format@, output.count as u32),
                ));
                assert(all_outputs_utf8(prefix)) by {
                    assert forall|j: int| 0 <= j < prefix.len() implies valid_utf8(
                        #[trigger] prefix[j].bytes@,
                    ) by {
                        if j < i {
                            assert(prefix[j] == outputs@.take(i as int)[j]);
                        }
                    }
                }
            },
            Err(detail) => {
                let name = output.behavior.clone();
                assert(first_invalid_output(outputs@, i as int));
                return Err(InvalidUtf8Output { name, detail });
            },
        }
        i += 1;
    }
    assert(outputs@.take(outputs@.len() as int) =~= outputs@);
    let kind = "rules";
    proof {
        reveal_strlit("rules");
    }
    Ok(RuleStringResult { kind: kind.to_owned(), outputs: texts, info: infos, skipped })
}

/// The names under which outputs are stored are exactly the outputs' behavior
/// names, each with both a text and an info, and each info names its output.
pub proof fn lemma_texts_and_infos_share_names(outputs: Seq<RuleOutput>)
    ensures
        output_texts(outputs).dom() == output_infos(outputs).dom(),
        forall|k: Seq<char>|
            output_texts(outputs).contains_key(k) <==> exists|i: int|
                0 <= i < outputs.len() && #[trigger] outputs[i].behavior@ == k,
        forall|k: Seq<char>| #[trigger]
            output_infos(outputs).contains_key(k) ==> output_infos(outputs)[k].0 == Some(k),
    decreases outputs.len(),
{
    if outputs.len() > 0 {
        let front = outputs.drop_last();
        lemma_texts_and_infos_share_names(front);
        assert forall|k: Seq<char>|
            output_texts(outputs).contains_key(k) <==> exists|i: int|
                0 <= i < outputs.len() && #[trigger] outputs[i].behavior@ == k by {
            if output_texts(outputs).contains_key(k) && k != outputs.last().behavior@ {
                let i = choose|i: int| 0 <= i < front.len() && #[trigger] front[i].behavior@ == k;
                assert(outputs[i].behavior@ == k);
            }
            if exists|i: int| 0 <= i < outputs.len() && #[trigger] outputs[i].behavior@ == k {
                let i = choose|i: int| 0 <= i < outputs.len() && #[trigger] outputs[i].behavior@ == k;
                if i < outputs.len() - 1 {
                    assert(front[i].behavior@ == k);
                }
            }
        }
    } else {
        assert(output_texts(outputs).dom() =~= output_infos(outputs).dom());
    }
}

/// When several outputs share a behavior name, the last of them is the one
/// that is kept: its text and its info are stored under the name.
pub proof fn lemma_last_output_wins(outputs: Seq<RuleOutput>, i: int)
    requires
        0 <= i < outputs.len(),
        forall|j: int| i < j < outputs.len() ==> #[trigger] outputs[j].behavior@ != outputs[i].behavior@,
    ensures
        output_texts(outputs).contains_key(outputs[i].behavior@),
        output_texts(outputs)[outputs[i].behavior@] == decode_utf8(outputs[i].bytes@),
        output_infos(outputs)[outputs[i].behavior@] == (
            Some(outputs[i].behavior@),
            outputs[i].format@,
            outputs[i].count as u32,
        ),
    decreases outputs.len(),
{
    if i < outputs.len() - 1 {
        let front = outputs.drop_last();
        assert(outputs[outputs.len() - 1].behavior@ != outputs[i].behavior@);
        assert forall|j: int| i < j < front.len() implies #[trigger] front[j].behavior@
            != front[i].behavior@ by {
            assert(outputs[j].behavior@ != outputs[i].behavior@);
        }
        lemma_last_output_wins(front, i);
    }
}

impl InvalidUtf8Output {
    /// The error's message: `output NAME is not valid UTF-8: DETAIL`.
    pub fn message(&self) -> (msg: String)
        ensures
            msg@ == "output "@ + self.name@ + " is not valid UTF-8: "@ + self.detail@,
    {
        let mut msg = "output ".to_owned();
        msg.append(self.name.as_str());
        msg.append(" is not valid UTF-8: ");
        msg.append(self.detail.as_str());
        msg
    }
}

} // verus!
