//! The catalogue of segmentation models, the choice of model files and model
//! directories, and the reading of a model's input shape and output tensor.

use vstd::prelude::*;
use crate::text::str_equal;

verus! {

/// Key and file name of catalogue entry `i` (`0 <= i < 3`).
pub open spec fn catalog_key(i: int) -> Seq<char> {
    if i == 0 { "u2net"@ } else if i == 1 { "u2net_human_seg"@ } else { "silueta"@ }
}

pub open spec fn catalog_file(i: int) -> Seq<char> {
    if i == 0 { "u2net.onnx"@ } else if i == 1 { "u2net_human_seg.onnx"@ } else { "silueta.onnx"@ }
}

/// Number of catalogue entries.
pub const CATALOG_LEN: usize = 3;

/// The segmentation models the tool knows, as (key, file name) pairs.
pub fn available_models() -> (r: Vec<(&'static str, &'static str)>)
    ensures
        r@.len() == CATALOG_LEN,
        forall|i: int| 0 <= i < 3 ==> (#[trigger] r@[i]).0@ == catalog_key(i) && r@[i].1@ == catalog_file(i),
{
    let mut v: Vec<(&'static str, &'static str)> = Vec::new();
    v.push(("u2net", "u2net.onnx"));
    v.push(("u2net_human_seg", "u2net_human_seg.onnx"));
    v.push(("silueta", "silueta.onnx"));
    v
}

/// The file of the model with key `key`; unknown keys (and the empty key)
/// select the general model.
pub open spec fn model_file_for(key: Seq<char>) -> Seq<char> {
    if key == catalog_key(0) {
        catalog_file(0)
    } else if key == catalog_key(1) {
        catalog_file(1)
    } else if key == catalog_key(2) {
        catalog_file(2)
    } else {
        catalog_file(0)
    }
}

/// The file name of the model with key `model_key`, `u2net.onnx` for an
/// unknown key.
pub fn model_filename(model_key: &str) -> (r: String)
    ensures
        r@ == model_file_for(model_key@),
{
    let models = available_models();
    let mut i: usize = 0;
    while i < models.len()
        invariant
            models@.len() == CATALOG_LEN,
            forall|k: int| 0 <= k < 3 ==> (#[trigger] models@[k]).0@ == catalog_key(k) && models@[k].1@ == catalog_file(k),
            i <= 3,
            forall|k: int| 0 <= k < i ==> model_key@ != catalog_key(k),
        decreases 3 - i,
    {
        let (key, file) = models[i];
        if str_equal(key, model_key) {
            return String::from_str(file);
        }
        i = i + 1;
    }
    String::from_str("u2net.onnx")
}

/// Files of the catalogue entries marked present, in catalogue order.
pub open spec fn present_files(present: Seq<bool>) -> Seq<Seq<char>> {
    (if present[0] { seq![catalog_file(0)] } else { Seq::empty() })
        + (if present[1] { seq![catalog_file(1)] } else { Seq::empty() })
        + (if present[2] { seq![catalog_file(2)] } else { Seq::empty() })
}

/// The model files that are present, in catalogue order; `present[i]` tells
/// whether the file of catalogue entry `i` exists in the model directory.
pub fn list_available_models(present: &[bool]) -> (r: Vec<String>)
    requires
        present@.len() == CATALOG_LEN,
    ensures
        r@.len() == present_files(present@).len(),
        forall|i: int| 0 <= i < r@.len() ==> (#[trigger] r@[i])@ == present_files(present@)[i],
{
    let models = available_models();
    let mut out: Vec<String> = Vec::new();
    let mut i: usize = 0;
    while i < CATALOG_LEN
        invariant
            models@.len() == CATALOG_LEN,
            forall|k: int| 0 <= k < 3 ==> (#[trigger] models@[k]).0@ == catalog_key(k) && models@[k].1@ == catalog_file(k),
            present@.len() == CATALOG_LEN,
            i <= 3,
            out@.len() == present_files_prefix(present@, i as int).len(),
            forall|k: int| 0 <= k < out@.len() ==> (#[trigger] out@[k])@ == present_files_prefix(present@, i as int)[k],
        decreases 3 - i,
    {
        if present[i] {
            out.push(String::from_str(models[i].1));
        }
        i = i + 1;
    }
    proof {
        reveal_with_fuel(present_files_prefix, 4);
    }
    assert(present_files_prefix(present@, 3) =~= present_files(present@));
    out
}

/// Files of the present entries among the first `n` catalogue entries.
pub open spec fn present_files_prefix(present: Seq<bool>, n: int) -> Seq<Seq<char>>
    decreases n,
{
    if n <= 0 {
        Seq::empty()
    } else {
        present_files_prefix(present, n - 1)
            + (if present[n - 1] { seq![catalog_file(n - 1)] } else { Seq::empty() })
    }
}

/// Whether any model file of the catalogue is present.
pub fn has_rembg_models(present: &[bool]) -> (r: bool)
    requires
        present@.len() == CATALOG_LEN,
    ensures
        r == (present@[0] || present@[1] || present@[2]),
{
    let mut i: usize = 0;
    while i < CATALOG_LEN
        invariant
            present@.len() == CATALOG_LEN,
            i <= 3,
            forall|k: int| 0 <= k < i ==> !present@[k],
        decreases 3 - i,
    {
        if present[i] {
            return true;
        }
        i = i + 1;
    }
    false
}

/// The first candidate that exists, if any (used to locate the policy model).
pub fn first_existing(exists: &[bool]) -> (r: Option<usize>)
    ensures
        match r {
            Some(i) => i < exists@.len() && exists@[i as int] && forall|j: int| 0 <= j < i ==> !exists@[j],
            None => forall|j: int| 0 <= j < exists@.len() ==> !exists@[j],
        },
{
    let mut i: usize = 0;
    while i < exists.len()
        invariant
            i <= exists@.len(),
            forall|j: int| 0 <= j < i ==> !exists@[j],
        decreases exists@.len() - i,
    {
        if exists[i] {
            return Some(i);
        }
        i = i + 1;
    }
    None
}

/// The model directory among the candidates: the first one that exists and
/// holds a catalogue model, else the first one that exists, else the first
/// candidate.
pub fn pick_models_dir(exists: &[bool], has_models: &[bool]) -> (r: usize)
    requires
        exists@.len() == has_models@.len(),
        exists@.len() >= 1,
    ensures
        r < exists@.len(),
        (exists@[r as int] && has_models@[r as int]
            && forall|j: int| 0 <= j < r ==> !(exists@[j] && has_models@[j]))
        || ((forall|j: int| 0 <= j < exists@.len() ==> !(exists@[j] && has_models@[j]))
            && exists@[r as int] && forall|j: int| 0 <= j < r ==> !exists@[j])
        || ((forall|j: int| 0 <= j < exists@.len() ==> !exists@[j]) && r == 0),
{
    let mut i: usize = 0;
    while i < exists.len()
        invariant
            exists@.len() == has_models@.len(),
            i <= exists@.len(),
            forall|j: int| 0 <= j < i ==> !(exists@[j] && has_models@[j]),
        decreases exists@.len() - i,
    {
        if exists[i] && has_models[i] {
            return i;
        }
        i = i + 1;
    }
    match first_existing(exists) {
        Some(k) => k,
        None => 0,
    }
}

/// Whether a model must be (re)loaded: unless the requested model is the one
/// already loaded in a live session.
pub fn needs_model_load(current_model: &str, requested: &str, session_loaded: bool) -> (r: bool)
    ensures
        r == !(current_model@ == requested@ && session_loaded),
{
    !(str_equal(current_model, requested) && session_loaded)
}

/// The input height and width a segmentation model declares, from its first
/// input's shape: dimensions 2 and 3 (cut to 32 bits) when the shape has at
/// least four dimensions and both are positive, else 320 x 320.
pub open spec fn spec_input_hw(dims: Seq<i64>) -> (u32, u32) {
    if dims.len() >= 4 && dims[2] as u32 > 0 && dims[3] as u32 > 0 {
        (dims[2] as u32, dims[3] as u32)
    } else {
        (320, 320)
    }
}

/// The input height and width of a segmentation model with input shape `dims`
/// (`None` when the model gives no tensor shape).
pub fn input_hw_from_shape(dims: Option<&[i64]>) -> (r: (u32, u32))
    ensures
        r == match dims {
            Some(d) => spec_input_hw(d@),
            None => (320u32, 320u32),
        },
{
    match dims {
        Some(d) => {
            if d.len() >= 4 {
                let h = d[2] as u32;
                let w = d[3] as u32;
                if h > 0 && w > 0 {
                    return (h, w);
                }
            }
            (320, 320)
        },
        None => (320, 320),
    }
}

/// How many leading values of a segmentation output of `slice_len` values
/// with tensor shape `shape` form the mask of a `target_w` x `target_h` input.
pub open spec fn spec_usable_output_len(shape: Seq<usize>, slice_len: int, target_w: int, target_h: int) -> int {
    let per_channel = target_w * target_h;
    if shape.len() == 4 {
        let hw = shape[2] * shape[3];
        if hw == per_channel { per_channel } else { min(hw, slice_len) }
    } else if shape.len() == 3 {
        if shape[1] * shape[2] >= per_channel {
            min(per_channel, min(shape[0] * shape[1] * shape[2], slice_len))
        } else {
            min(shape[1] * shape[2], slice_len)
        }
    } else if shape.len() == 2 {
        min(shape[0] * shape[1], slice_len)
    } else {
        min(per_channel, slice_len)
    }
}

pub open spec fn min(a: int, b: int) -> int {
    if a <= b { a } else { b }
}

/// The products that `usable_output_len` computes fit in `usize`, and a
/// matching four-dimensional output holds a whole channel.
pub open spec fn output_shape_ok(shape: Seq<usize>, slice_len: int, target_w: int, target_h: int) -> bool {
    &&& target_w * target_h <= usize::MAX
    &&& shape.len() == 4 ==> shape[2] * shape[3] <= usize::MAX
        && (shape[2] * shape[3] == target_w * target_h ==> target_w * target_h <= slice_len)
    &&& shape.len() == 3 ==> shape[1] * shape[2] <= usize::MAX
        && (shape[1] * shape[2] >= target_w * target_h ==>
            shape[0] * shape[1] <= usize::MAX && shape[0] * shape[1] * shape[2] <= usize::MAX)
    &&& shape.len() == 2 ==> shape[0] * shape[1] <= usize::MAX
}

/// How many leading values of the model output form the mask: a whole
/// channel when a four-dimensional shape matches the input size, else the
/// product of the spatial dimensions, never more than the output holds.
pub fn usable_output_len(shape: &[usize], slice_len: usize, target_w: u32, target_h: u32) -> (r: usize)
    requires
        output_shape_ok(shape@, slice_len as int, target_w as int, target_h as int),
    ensures
        r == spec_usable_output_len(shape@, slice_len as int, target_w as int, target_h as int),
        r <= slice_len,
{
    let per_channel = (target_w as usize) * (target_h as usize);
    if shape.len() == 4 {
        let hw = shape[2] * shape[3];
        if hw == per_channel {
            per_channel
        } else if hw <= slice_len {
            hw
        } else {
            slice_len
        }
    } else if shape.len() == 3 {
        let mid_last = shape[1] * shape[2];
        if mid_last >= per_channel {
            let total0 = shape[0] * shape[1] * shape[2];
            let total = if total0 <= slice_len { total0 } else { slice_len };
            if per_channel <= total { per_channel } else { total }
        } else if mid_last <= slice_len {
            mid_last
        } else {
            slice_len
        }
    } else if shape.len() == 2 {
        let hw = shape[0] * shape[1];
        if hw <= slice_len { hw } else { slice_len }
    } else if per_channel <= slice_len {
        per_channel
    } else {
        slice_len
    }
}

/// Every model key, known or not, selects one of the catalogue's files, and
/// each catalogue key selects its own file.
pub proof fn lemma_model_file_in_catalog(key: Seq<char>)
    ensures
        exists|i: int| 0 <= i < CATALOG_LEN && model_file_for(key) == #[trigger] catalog_file(i),
        forall|i: int| 0 <= i < CATALOG_LEN ==> model_file_for(#[trigger] catalog_key(i)) == catalog_file(i),
{
    reveal_strlit("u2net");
    reveal_strlit("u2net_human_seg");
    reveal_strlit("silueta");
    assert(catalog_key(0).len() != catalog_key(1).len());
    assert(catalog_key(0).len() != catalog_key(2).len());
    assert(catalog_key(1).len() != catalog_key(2).len());
    if key == catalog_key(0) {
        assert(model_file_for(key) == catalog_file(0));
    } else if key == catalog_key(1) {
        assert(model_file_for(key) == catalog_file(1));
    } else if key == catalog_key(2) {
        assert(model_file_for(key) == catalog_file(2));
    } else {
        assert(model_file_for(key) == catalog_file(0));
    }
}

} // verus!
