//! Bookkeeping for model downloads: where a model is fetched from, under
//! which file name it is kept, and which downloads were asked to stop.

use vstd::prelude::*;
use crate::text::{
    all_ascii, chars_of, lower, lowercase, lowercase_of, push_str, same_chars, string_of, to_lower,
};

verus! {

/// The address under which the model repository serves its files.
pub open spec fn repository_prefix() -> Seq<char> {
    "https://huggingface.co/ggerganov/whisper.cpp/resolve/main/"@
}

/// Where the model called `name` is fetched from. Names are matched without
/// regard to the case of the letters `A` to `Z`; an unknown name has no
/// address.
pub open spec fn model_address(name: Seq<char>) -> Option<Seq<char>> {
    let low = lower(name);
    if low == "tiny"@ {
        Some(repository_prefix() + "ggml-tiny.bin"@)
    } else if low == "base"@ {
        Some(repository_prefix() + "ggml-base.bin"@)
    } else if low == "small"@ {
        Some(repository_prefix() + "ggml-small.bin"@)
    } else if low == "medium"@ {
        Some(repository_prefix() + "ggml-medium.bin"@)
    } else if low == "large"@ {
        Some(repository_prefix() + "ggml-large-v3.bin"@)
    } else {
        None
    }
}

/// The name of the file in which a model is kept, given the model's name in
/// lower case.
pub open spec fn artifact_name(lower_name: Seq<char>) -> Seq<char> {
    "ggml-"@ + lower_name + ".bin"@
}

/// The name of the file in which the model called `name` is kept:
/// `ggml-`, the name in lower case, `.bin`. Every letter of the name is
/// lower-cased, not only `A` to `Z`.
pub open spec fn model_file(name: Seq<char>) -> Seq<char> {
    artifact_name(lowercase_of(name))
}

/// The name of the file in which a model is kept, given the model's name in
/// lower case.
pub fn model_file_for(lower_name: &str) -> (file: String)
    ensures
        file@ == artifact_name(lower_name@),
{
    let mut out: Vec<char> = Vec::new();
    push_str(&mut out, "ggml-");
    push_str(&mut out, lower_name);
    push_str(&mut out, ".bin");
    assert(out@ =~= artifact_name(lower_name@));
    string_of(&out)
}

/// The name of the file in which the model called `name` is kept. Names
/// that differ only in the case of their letters are kept in one file; for
/// a name of ASCII characters the file is named after the name with `A` to
/// `Z` in lower case.
pub fn model_file_name(name: &str) -> (file: String)
    ensures
        file@ == model_file(name@),
        all_ascii(name@) ==> file@ == artifact_name(lower(name@)),
{
    let low = lowercase(name);
    model_file_for(low.as_str())
}

/// Where the model called `name` is fetched from.
pub fn model_url(name: &str) -> (url: Option<String>)
    ensures
        url is Some <==> model_address(name@) is Some,
        url matches Some(u) ==> Some(u@) == model_address(name@),
{
    let low = to_lower(&chars_of(name));
    let file = if crate::text::spells(&low, "tiny") {
        "ggml-tiny.bin"
    } else if crate::text::spells(&low, "base") {
        "ggml-base.bin"
    } else if crate::text::spells(&low, "small") {
        "ggml-small.bin"
    } else if crate::text::spells(&low, "medium") {
        "ggml-medium.bin"
    } else if crate::text::spells(&low, "large") {
        "ggml-large-v3.bin"
    } else {
        return None;
    };
    let mut out: Vec<char> = Vec::new();
    push_str(&mut out, "https://huggingface.co/ggerganov/whisper.cpp/resolve/main/");
    push_str(&mut out, file);
    assert(out@ =~= repository_prefix() + file@);
    Some(string_of(&out))
}

/// The downloads that were asked to stop, by model name.
pub struct DownloadState {
    cancelled: Vec<String>,
}

impl View for DownloadState {
    type V = Set<Seq<char>>;

    closed spec fn view(&self) -> Set<Seq<char>> {
        Set::new(
            |name: Seq<char>|
                exists|i: int| 0 <= i < self.cancelled.len() && (#[trigger] self.cancelled[i])@ == name,
        )
    }
}

impl DownloadState {
    /// A state in which no download was asked to stop.
    pub fn new() -> (state: DownloadState)
        ensures
            state@ == Set::<Seq<char>>::empty(),
    {
        let state = DownloadState { cancelled: Vec::new() };
        assert(state@ =~= Set::<Seq<char>>::empty());
        state
    }

    /// Asks the download of `model_name` to stop.
    pub fn cancel(&mut self, model_name: &str)
        ensures
            final(self)@ == old(self)@.insert(model_name@),
    {
        let ghost before = self.cancelled@;
        self.cancelled.push(crate::text::string_of(&chars_of(model_name)));
        proof {
            let after = self.cancelled@;
            assert forall|name: Seq<char>| final(self)@.contains(name) == old(self)@.insert(
                model_name@,
            ).contains(name) by {
                if old(self)@.insert(model_name@).contains(name) {
                    if name == model_name@ {
                        assert(after[after.len() - 1]@ == name);
                    } else {
                        let i = choose|i: int| 0 <= i < before.len() && (#[trigger] before[i])@ == name;
                        assert(after[i]@ == name);
                    }
                }
                if final(self)@.contains(name) {
                    let i = choose|i: int| 0 <= i < after.len() && (#[trigger] after[i])@ == name;
                    if i < before.len() {
                        assert(before[i]@ == name);
                    }
                }
            }
            assert(final(self)@ =~= old(self)@.insert(model_name@));
        }
    }

    /// Whether the download of `model_name` was asked to stop.
    pub fn is_cancelled(&self, model_name: &str) -> (r: bool)
        ensures
            r == self@.contains(model_name@),
    {
        let wanted = chars_of(model_name);
        let mut i: usize = 0;
        while i < self.cancelled.len()
            invariant
                i <= self.cancelled.len(),
                wanted@ == model_name@,
                forall|j: int| 0 <= j < i ==> (#[trigger] self.cancelled[j])@ != model_name@,
            decreases self.cancelled.len() - i,
        {
            let held = chars_of(self.cancelled[i].as_str());
            if same_chars(&held, &wanted) {
                return true;
            }
            i += 1;
        }
        false
    }

    /// Forgets that the download of `model_name` was asked to stop.
    pub fn clear(&mut self, model_name: &str)
        ensures
            final(self)@ == old(self)@.remove(model_name@),
    {
        let wanted = chars_of(model_name);
        let mut kept: Vec<String> = Vec::new();
        let mut i: usize = 0;
        while i < self.cancelled.len()
            invariant
                i <= self.cancelled.len(),
                self.cancelled == old(self).cancelled,
                wanted@ == model_name@,
                forall|k: int| 0 <= k < kept.len() ==> (#[trigger] kept[k])@ != model_name@,
                forall|k: int|
                    0 <= k < kept.len() ==> exists|j: int|
                        0 <= j < i && self.cancelled[j]@ == (#[trigger] kept[k])@,
                forall|j: int|
                    0 <= j < i && (#[trigger] self.cancelled[j])@ != model_name@ ==> exists|k: int|
                        0 <= k < kept.len() && (#[trigger] kept[k])@ == self.cancelled[j]@,
            decreases self.cancelled.len() - i,
        {
            let held = chars_of(self.cancelled[i].as_str());
            if !same_chars(&held, &wanted) {
                let ghost before = kept@;
                kept.push(self.cancelled[i].clone());
                proof {
                    assert forall|j: int|
                        0 <= j < i + 1 && (#[trigger] self.cancelled[j])@
                            != model_name@ implies exists|k: int|
                        0 <= k < kept.len() && (#[trigger] kept[k])@ == self.cancelled[j]@ by {
                        if j < i {
                            let k = choose|k: int|
                                0 <= k < before.len() && (#[trigger] before[k])@
                                    == self.cancelled[j]@;
                            assert(kept[k]@ == self.cancelled[j]@);
                        } else {
                            assert(kept[kept.len() - 1]@ == self.cancelled[j]@);
                        }
                    }
                }
            }
            i += 1;
        }
        self.cancelled = kept;
        proof {
            assert forall|name: Seq<char>| final(self)@.contains(name) == old(self)@.remove(
                model_name@,
            ).contains(name) by {
                let before = old(self).cancelled@;
                let after = final(self).cancelled@;
                if final(self)@.contains(name) {
                    let k = choose|k: int| 0 <= k < after.len() && (#[trigger] after[k])@ == name;
                    let j = choose|j: int| 0 <= j < before.len() && before[j]@ == after[k]@;
                    assert(before[j]@ == name);
                }
                if old(self)@.remove(model_name@).contains(name) {
                    let j = choose|j: int| 0 <= j < before.len() && (#[trigger] before[j])@ == name;
                    let k = choose|k: int| 0 <= k < after.len() && (#[trigger] after[k])@ == before[j]@;
                    assert(after[k]@ == name);
                }
            }
            assert(final(self)@ =~= old(self)@.remove(model_name@));
        }
    }
}

} // verus!
