//! What is saved beside a capture, so that it can be replayed.
use crate::catalog;
use crate::catalog::copy_opt;
use crate::decoder;
use crate::decoder::{make_i16_le_decoder, ReportDecoder, ReportOutputMode, Scale};
use crate::decoder::DecoderView;
use crate::report;
use crate::report::{report_kind_label, ReportKinds};
use crate::samples;
use crate::samples::ReportDecoderRegistry;
use crate::session::two;
use crate::text;
use crate::text::{chars_of, copy_texts, find_here, push_dec, same_text, string_of};
use crate::workspace::FileDialog;
use vstd::prelude::*;
use vstd::slice::slice_subrange;

verus! {

// ---- decoders

/// A decoder as it is saved.
#[derive(Debug, Clone, PartialEq, Eq)]
pub struct CaptureDecoderMeta {
    pub kind: u32,
    pub kind_label: String,
    pub decoder: String,
    pub fields: Vec<String>,
    pub gyro_fields: Vec<String>,
    pub accel_fields: Vec<String>,
    pub temp_field: Option<String>,
    pub accel_fs_g: Scale,
    pub gyro_fs_dps: Scale,
    pub temp_lsb_per_c: Scale,
    pub temp_offset_c: Scale,
    pub output: String,
}

/// A decoder as it is saved, as a mathematical value.
pub struct DecoderMetaView {
    pub kind: u32,
    pub kind_label: Seq<char>,
    pub decoder: Seq<char>,
    pub fields: Seq<Seq<char>>,
    pub gyro_fields: Seq<Seq<char>>,
    pub accel_fields: Seq<Seq<char>>,
    pub temp_field: Option<Seq<char>>,
    pub accel_fs_g: Scale,
    pub gyro_fs_dps: Scale,
    pub temp_lsb_per_c: Scale,
    pub temp_offset_c: Scale,
    pub output: Seq<char>,
}

impl CaptureDecoderMeta {
    pub open spec fn view(self) -> DecoderMetaView {
        DecoderMetaView {
            kind: self.kind,
            kind_label: self.kind_label@,
            decoder: self.decoder@,
            fields: text::texts(self.fields@),
            gyro_fields: text::texts(self.gyro_fields@),
            accel_fields: text::texts(self.accel_fields@),
            temp_field: catalog::opt_text(self.temp_field),
            accel_fs_g: self.accel_fs_g,
            gyro_fs_dps: self.gyro_fs_dps,
            temp_lsb_per_c: self.temp_lsb_per_c,
            temp_offset_c: self.temp_offset_c,
            output: self.output@,
        }
    }
}

/// A decoder as it is saved.
pub open spec fn saved(kinds: ReportKinds, kind: u32, d: DecoderView) -> DecoderMetaView {
    DecoderMetaView {
        kind,
        kind_label: report::kind_label(kinds.names@, kind),
        decoder: d.label,
        fields: d.fields,
        gyro_fields: d.gyro_fields,
        accel_fields: d.accel_fields,
        temp_field: d.temp_field,
        accel_fs_g: d.accel_fs_g,
        gyro_fs_dps: d.gyro_fs_dps,
        temp_lsb_per_c: d.temp_lsb_per_c,
        temp_offset_c: d.temp_offset_c,
        output: d.output.name(),
    }
}

/// What saved decoders stand for.
pub open spec fn meta_views(metas: Seq<CaptureDecoderMeta>) -> Seq<DecoderMetaView> {
    metas.map_values(|m: CaptureDecoderMeta| m.view())
}

/// Decoders as they are saved, in the order of a list.
pub open spec fn saved_list(kinds: ReportKinds, list: Seq<(u32, &ReportDecoder)>) -> Seq<
    DecoderMetaView,
> {
    list.map_values(|p: (u32, &ReportDecoder)| saved(kinds, p.0, p.1.view()))
}

/// The decoders as they are saved, each once, in no particular order.
pub fn capture_decoder_meta(registry: &ReportDecoderRegistry, kinds: &ReportKinds) -> (metas: Vec<
    CaptureDecoderMeta,
>)
    ensures
        exists|list: Seq<(u32, &ReportDecoder)>| #[trigger]
            samples::lists(list, registry@) && meta_views(metas@) == saved_list(*kinds, list),
{
    let list = registry.iter();
    let mut metas: Vec<CaptureDecoderMeta> = Vec::new();
    let mut i: usize = 0;
    while i < list.len()
        invariant
            i <= list.len(),
            metas@.len() == i,
            forall|k: int|
                0 <= k < i ==> (#[trigger] metas@[k]).view() == saved(
                    *kinds,
                    list@[k].0,
                    list@[k].1.view(),
                ),
        decreases list.len() - i,
    {
        let (kind, decoder) = list[i];
        match decoder {
            ReportDecoder::I16Le(d) => {
                metas.push(
                    CaptureDecoderMeta {
                        kind,
                        kind_label: report_kind_label(kinds, kind),
                        decoder: d.label.clone(),
                        fields: copy_texts(&d.fields),
                        gyro_fields: copy_texts(&d.gyro_fields),
                        accel_fields: copy_texts(&d.accel_fields),
                        temp_field: copy_opt(&d.temp_field),
                        accel_fs_g: d.accel_fs_g,
                        gyro_fs_dps: d.gyro_fs_dps,
                        temp_lsb_per_c: d.temp_lsb_per_c,
                        temp_offset_c: d.temp_offset_c,
                        output: d.output.as_str().to_owned(),
                    },
                );
            },
        }
        i += 1;
    }
    assert(meta_views(metas@) =~= saved_list(*kinds, list@));
    metas
}

/// What is put out, by its name.
pub open spec fn output_named(name: Seq<char>) -> Option<ReportOutputMode> {
    if name == "physical_f32"@ {
        Some(ReportOutputMode::PhysicalF32)
    } else if name == "raw_i16"@ {
        Some(ReportOutputMode::RawI16)
    } else {
        None
    }
}

/// The decoder that was saved, or why it cannot be used.
pub open spec fn restored(m: DecoderMetaView) -> Result<DecoderView, Seq<char>> {
    match output_named(m.output) {
        None => Err(
            "capture metadata decoder output must be physical_f32 or raw_i16, got "@ + m.output,
        ),
        Some(output) => decoder::checked(
            DecoderView {
                label: m.decoder,
                fields: m.fields,
                accel_fields: m.accel_fields,
                gyro_fields: m.gyro_fields,
                temp_field: m.temp_field,
                accel_fs_g: m.accel_fs_g,
                gyro_fs_dps: m.gyro_fs_dps,
                temp_lsb_per_c: m.temp_lsb_per_c,
                temp_offset_c: m.temp_offset_c,
                output,
            },
        ),
    }
}

/// The decoders that were saved, or why the first that cannot be used cannot.
pub open spec fn restored_all(metas: Seq<DecoderMetaView>) -> Result<
    Map<u32, DecoderView>,
    Seq<char>,
>
    decreases metas.len(),
{
    if metas.len() == 0 {
        Ok(Map::empty())
    } else {
        match restored_all(metas.drop_last()) {
            Err(e) => Err(e),
            Ok(m) => match restored(metas.last()) {
                Err(e) => Err(e),
                Ok(d) => Ok(m.insert(metas.last().kind, d)),
            },
        }
    }
}

/// Decoders by kind, or why there are none.
pub open spec fn registry_result(r: Result<ReportDecoderRegistry, String>) -> Result<
    Map<u32, DecoderView>,
    Seq<char>,
> {
    match r {
        Ok(r) => Ok(samples::decoder_views(r@)),
        Err(e) => Err(e@),
    }
}

fn restore(m: &CaptureDecoderMeta) -> (r: Result<ReportDecoder, String>)
    ensures
        decoder::decoder_result(r) == restored(m.view()),
{
    let output: ReportOutputMode = if same_text(m.output.as_str(), "physical_f32") {
        ReportOutputMode::PhysicalF32
    } else if same_text(m.output.as_str(), "raw_i16") {
        ReportOutputMode::RawI16
    } else {
        return Err(
            two(
                "capture metadata decoder output must be physical_f32 or raw_i16, got ",
                m.output.as_str(),
            ),
        );
    };
    make_i16_le_decoder(
        m.decoder.as_str(),
        copy_texts(&m.fields),
        copy_texts(&m.gyro_fields),
        copy_texts(&m.accel_fields),
        copy_opt(&m.temp_field),
        m.accel_fs_g,
        m.gyro_fs_dps,
        m.temp_lsb_per_c,
        m.temp_offset_c,
        output,
    )
}

proof fn lemma_restored_fails(metas: Seq<DecoderMetaView>, i: int)
    requires
        0 <= i <= metas.len(),
        restored_all(metas.take(i)) is Err,
    ensures
        restored_all(metas) == restored_all(metas.take(i)),
    decreases metas.len() - i,
{
    if i < metas.len() {
        assert(metas.take(i + 1).drop_last() =~= metas.take(i));
        lemma_restored_fails(metas, i + 1);
    } else {
        assert(metas.take(i) =~= metas);
    }
}

/// What is saved beside a capture.
#[derive(Debug, Clone, PartialEq, Eq)]
pub struct CaptureSidecar {
    pub version: u32,
    pub format: String,
    pub rseq_files: Vec<String>,
    pub chip_files: Vec<String>,
    pub skip_samples: usize,
    pub report_decoders: Vec<CaptureDecoderMeta>,
}

/// What is saved beside a capture.
pub fn capture_sidecar(
    rseq_files: &[String],
    chip_files: &[String],
    skip_samples: usize,
    registry: &ReportDecoderRegistry,
    kinds: &ReportKinds,
) -> (s: CaptureSidecar)
    ensures
        s.version == 1,
        s.format@ == "rseq-report-capture-bin-v1"@,
        text::texts(s.rseq_files@) == text::texts(rseq_files@),
        text::texts(s.chip_files@) == text::texts(chip_files@),
        s.skip_samples == skip_samples,
        exists|list: Seq<(u32, &ReportDecoder)>| #[trigger]
            samples::lists(list, registry@) && meta_views(s.report_decoders@) == saved_list(
                *kinds,
                list,
            ),
{
    CaptureSidecar {
        version: 1,
        format: "rseq-report-capture-bin-v1".to_owned(),
        rseq_files: copy_texts(rseq_files),
        chip_files: copy_texts(chip_files),
        skip_samples,
        report_decoders: capture_decoder_meta(registry, kinds),
    }
}

/// The decoders that were saved beside a capture, or why the first that cannot be used cannot.
pub fn report_decoder_registry_from_sidecar(sidecar: &CaptureSidecar) -> (r: Result<
    ReportDecoderRegistry,
    String,
>)
    ensures
        registry_result(r) == restored_all(meta_views(sidecar.report_decoders@)),
{
    let metas = &sidecar.report_decoders;
    let ghost all = meta_views(metas@);
    let mut registry = ReportDecoderRegistry::default();
    let mut i: usize = 0;
    assert(all.take(0) =~= Seq::<DecoderMetaView>::empty());
    assert(samples::decoder_views(registry@) =~= Map::<u32, DecoderView>::empty());
    while i < metas.len()
        invariant
            i <= metas.len(),
            all == meta_views(metas@),
            metas@ == sidecar.report_decoders@,
            restored_all(all.take(i as int)) == Ok::<Map<u32, DecoderView>, Seq<char>>(
                samples::decoder_views(registry@),
            ),
        decreases metas.len() - i,
    {
        assert(all.take(i + 1).drop_last() =~= all.take(i as int));
        assert(all[i as int] == metas@[i as int].view());
        let ghost before = samples::decoder_views(registry@);
        match restore(&metas[i]) {
            Ok(d) => {
                registry.insert(metas[i].kind, d);
                assert(samples::decoder_views(registry@) =~= before.insert(
                    metas@[i as int].kind,
                    d.view(),
                ));
            },
            Err(e) => {
                proof {
                    lemma_restored_fails(all, i + 1);
                }
                return Err(e);
            },
        }
        i += 1;
    }
    assert(all.take(all.len() as int) =~= all);
    Ok(registry)
}

proof fn lemma_restores_list(
    kinds: ReportKinds,
    list: Seq<(u32, &ReportDecoder)>,
    m: Map<u32, ReportDecoder>,
)
    requires
        forall|i: int|
            0 <= i < list.len() ==> m.dom().contains((#[trigger] list[i]).0) && m[list[i].0]
                == *list[i].1,
        forall|k: u32| #[trigger]
            m.dom().contains(k) ==> decoder::decoder_fault(m[k].view()) is None,
    ensures
        restored_all(saved_list(kinds, list)) matches Ok(r) && {
            &&& forall|k: u32| #[trigger]
                r.dom().contains(k) ==> m.dom().contains(k) && r[k] == m[k].view()
            &&& forall|i: int| 0 <= i < list.len() ==> r.dom().contains((#[trigger] list[i]).0)
        },
    decreases list.len(),
{
    let metas = saved_list(kinds, list);
    if list.len() > 0 {
        let rest = list.drop_last();
        let last = list.last();
        assert(metas.drop_last() =~= saved_list(kinds, rest));
        assert forall|i: int| 0 <= i < rest.len() implies m.dom().contains(
            (#[trigger] rest[i]).0,
        ) && m[rest[i].0] == *rest[i].1 by {
            assert(rest[i] == list[i]);
        }
        lemma_restores_list(kinds, rest, m);
        assert(m.dom().contains(list[list.len() - 1].0));
        let d = last.1.view();
        assert(metas.last() == saved(kinds, last.0, d));
        reveal_strlit("physical_f32");
        reveal_strlit("raw_i16");
        assert("physical_f32"@.len() != "raw_i16"@.len());
        assert(restored(metas.last()) == decoder::checked(d));
        let r = restored_all(metas)->Ok_0;
        let before = restored_all(metas.drop_last())->Ok_0;
        assert(r == before.insert(last.0, d));
        assert forall|i: int| 0 <= i < list.len() implies r.dom().contains((#[trigger] list[i]).0) by {
            if i < rest.len() {
                assert(rest[i] == list[i]);
            }
        }
    }
}

/// Decoders that can be used are the same once they were saved and restored.
pub proof fn law_decoders_restored(
    kinds: ReportKinds,
    list: Seq<(u32, &ReportDecoder)>,
    m: Map<u32, ReportDecoder>,
)
    requires
        samples::lists(list, m),
        forall|k: u32| #[trigger]
            m.dom().contains(k) ==> decoder::decoder_fault(m[k].view()) is None,
    ensures
        restored_all(saved_list(kinds, list)) == Ok::<Map<u32, DecoderView>, Seq<char>>(
            samples::decoder_views(m),
        ),
{
    lemma_restores_list(kinds, list, m);
    let r = restored_all(saved_list(kinds, list))->Ok_0;
    assert forall|k: u32| m.dom().contains(k) implies r.dom().contains(k) by {
        let i = choose|i: int| 0 <= i < list.len() && (#[trigger] list[i]).0 == k;
        assert(r.dom().contains(list[i].0));
    }
    assert(r =~= samples::decoder_views(m));
}

// ---- files

/// A path without what does not matter at its end: separators, and the directory itself.
pub open spec fn path_base(s: Seq<char>) -> Seq<char>
    decreases s.len(),
{
    if s.len() > 0 && s.last() == '/' {
        path_base(s.drop_last())
    } else if s.len() >= 2 && s.last() == '.' && s[s.len() - 2] == '/' {
        path_base(s.drop_last())
    } else {
        s
    }
}

/// Whether a path without what does not matter at its end names no file.
pub open spec fn nameless(base: Seq<char>) -> bool {
    ||| base.len() == 0
    ||| base == "."@
    ||| base == ".."@
    ||| (base.len() >= 3 && base.last() == '.' && base[base.len() - 2] == '.' && base[base.len() - 3]
        == '/')
}

/// Where what is saved beside a file is. The extension of the file stays.
pub open spec fn beside(path: Seq<char>) -> Seq<char> {
    let base = path_base(path);
    if nameless(base) {
        path
    } else if base.last() == '.' {
        base.drop_last() + ".json"@
    } else {
        base + ".json"@
    }
}

fn base_len(s: &[char]) -> (n: usize)
    ensures
        n <= s@.len(),
        path_base(s@) == s@.take(n as int),
{
    let mut n: usize = s.len();
    assert(s@.take(n as int) =~= s@);
    while n > 0 && (s[n - 1] == '/' || (n >= 2 && s[n - 1] == '.' && s[n - 2] == '/'))
        invariant
            n <= s.len(),
            path_base(s@) == path_base(s@.take(n as int)),
        decreases n,
    {
        assert(s@.take(n as int).drop_last() =~= s@.take(n - 1));
        assert(s@.take(n as int).last() == s@[n - 1]);
        n -= 1;
    }
    proof {
        let t = s@.take(n as int);
        if n > 0 {
            assert(t.last() == s@[n - 1]);
            if n >= 2 {
                assert(t[n - 2] == s@[n - 2]);
            }
        }
    }
    n
}

fn is_nameless(b: &[char]) -> (r: bool)
    ensures
        r == nameless(b@),
{
    proof {
        reveal_strlit(".");
        reveal_strlit("..");
        assert("."@ =~= seq!['.']);
        assert(".."@ =~= seq!['.', '.']);
        if b@.len() == 1 {
            assert(b@ =~= seq![b@[0]]);
        }
        if b@.len() == 2 {
            assert(b@ =~= seq![b@[0], b@[1]]);
        }
    }
    let n: usize = b.len();
    if n == 0 {
        true
    } else if n == 1 {
        b[0] == '.'
    } else if n == 2 {
        b[0] == '.' && b[1] == '.'
    } else {
        b[n - 1] == '.' && b[n - 2] == '.' && b[n - 3] == '/'
    }
}

/// Where what is saved beside a file is.
pub fn capture_sidecar_path(path: &str) -> (s: String)
    ensures
        s@ == beside(path@),
{
    let chars = chars_of(path);
    let n: usize = base_len(&chars);
    let base = slice_subrange(&chars, 0, n);
    assert(base@ =~= path@.take(n as int));
    if is_nameless(base) {
        return path.to_owned();
    }
    let k: usize = if base[n - 1] == '.' {
        n - 1
    } else {
        n
    };
    let kept = slice_subrange(base, 0, k);
    assert(base@[n - 1] == base@.last());
    assert(k == n ==> kept@ =~= base@);
    assert(k < n ==> kept@ =~= base@.drop_last());
    let mut s: String = string_of(kept);
    s.push_str(".json");
    s
}

/// Whether a path names a file with the extension of captures.
pub open spec fn is_capture(path: Seq<char>) -> bool {
    let base = path_base(path);
    base.len() > 4 && text::has_at(base, base.len() - 4, ".bin"@) && base[base.len() - 5] != '/'
}

/// Why a capture is not saved at a path, if it is not.
pub fn refuse_capture_path(path: &str) -> (r: Option<String>)
    ensures
        match r {
            Some(s) => !is_capture(path@) && s@ == "capture path "@ + path@
                + " must end with .bin"@,
            None => is_capture(path@),
        },
{
    let chars = chars_of(path);
    let n: usize = base_len(&chars);
    let base = slice_subrange(&chars, 0, n);
    assert(base@ =~= path@.take(n as int));
    if n > 4 && find_here(base, n - 4, &chars_of(".bin")) && base[n - 5] != '/' {
        return None;
    }
    let mut s: String = two("capture path ", path);
    s.push_str(" must end with .bin");
    Some(s)
}

/// What is told once a capture was saved.
pub fn capture_saved_text(count: usize, path: &str) -> (s: String)
    ensures
        s@ == "saved "@ + text::dec(count as nat) + " report(s) to "@ + path@ + " and "@ + beside(
            path@,
        ),
{
    let mut s: String = "saved ".to_owned();
    push_dec(&mut s, count as u128);
    s.push_str(" report(s) to ");
    s.push_str(path);
    s.push_str(" and ");
    s.push_str(capture_sidecar_path(path).as_str());
    s
}

/// What is told before a capture is saved, and whether there is one.
pub fn capture_save_start(count: usize) -> (r: Result<String, String>)
    ensures
        match r {
            Ok(s) => count > 0 && s@ == "choosing capture save path for "@ + text::dec(count as nat)
                + " report(s)"@,
            Err(s) => count == 0 && s@ == "no report capture records to save"@,
        },
{
    if count == 0 {
        return Err("no report capture records to save".to_owned());
    }
    Ok(FileDialog::SaveCapture.choosing(count))
}

} // verus!
