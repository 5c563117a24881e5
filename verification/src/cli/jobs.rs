//! Which videos are rendered, and where they go.

use vstd::prelude::*;
use vstd::string::*;
use vstd::utf8::*;

use crate::cli::args::{Cli, DataSource};
use crate::names::{
    bytes_at_most, chosen, extension_is, has_extension, in_name_order, law_chosen_names,
    law_extension_is_replaced, sort_names, views, with_extension, PathName,
};
use crate::text::{ascii, text_of};

verus! {

/// Why nothing can be rendered.
#[derive(Debug)]
pub enum RenderError {
    /// The source is not a local path.
    NotLocal { source: String },
    /// There are no splats in the folder.
    NoSplats,
}

impl RenderError {
    /// The text of the error, for the folder `dir`.
    pub open spec fn text(self, dir: Seq<char>) -> Seq<char> {
        match self {
            RenderError::NotLocal { source } => {
                "--render-anim needs a local .ply file or folder, not "@ + source@
            },
            RenderError::NoSplats => "no .ply files found in "@ + dir,
        }
    }

    /// The text of the error, for the folder `dir`.
    pub fn message(&self, dir: &str) -> (text: String)
        ensures
            text@ == self.text(dir@),
            match *self {
                RenderError::NotLocal { source } => text@
                    == "--render-anim needs a local .ply file or folder, not "@ + source@,
                RenderError::NoSplats => text@ == "no .ply files found in "@ + dir@,
            },
    {
        match self {
            RenderError::NotLocal { source } => {
                let mut text = text_of("--render-anim needs a local .ply file or folder, not ");
                text.append(source.as_str());
                text
            },
            RenderError::NoSplats => {
                let mut text = text_of("no .ply files found in ");
                text.append(dir);
                text
            },
        }
    }
}

/// The local path that an animation is rendered from.
pub fn render_source(args: &Cli) -> (outcome: Result<String, RenderError>)
    requires
        args.source is Some,
    ensures
        match args.source {
            Some(DataSource::Path(path)) => outcome matches Ok(p) && p@ == path@,
            Some(DataSource::Other(other)) => outcome matches Err(
                RenderError::NotLocal { source },
            ) && source@ == other@,
            None => true,
        },
{
    match &args.source {
        Some(DataSource::Path(path)) => Ok(path.clone()),
        Some(DataSource::Other(other)) => Err(RenderError::NotLocal { source: other.clone() }),
        None => Ok(String::new()),
    }
}

/// A video to render: the file name of the splats, and that of the video.
#[derive(Debug)]
pub struct RenderJob {
    pub ply: PathName,
    pub video: PathName,
}

/// What is to be rendered.
#[derive(Debug)]
pub enum RenderPlan {
    /// The source itself, to the output path.
    Single,
    /// The given files of the source folder. The videos go to the output
    /// directory if they are collected, and otherwise beside the splats.
    Folder { collect: bool, jobs: Vec<RenderJob> },
}

/// The names of the splat files among the entries of a folder.
pub open spec fn splat_names(names: Seq<PathName>) -> Seq<Seq<u8>> {
    chosen(views(names), |i: int| extension_is(names[i]@, "ply"@))
}

/// The splat files of several jobs.
pub open spec fn job_plys(jobs: Seq<RenderJob>) -> Seq<Seq<u8>> {
    Seq::new(jobs.len(), |i: int| jobs[i].ply@)
}

/// Each video is named after its splats.
pub open spec fn videos_named_after(jobs: Seq<RenderJob>) -> bool {
    forall|i: int|
        0 <= i < jobs.len() ==> (#[trigger] jobs[i]).video@ == with_extension(
            jobs[i].ply@,
            ascii("mp4"@),
        )
}

/// Whether videos are collected in the output path: it is a directory, or looks
/// like one.
pub open spec fn collects(out_is_dir: bool, out_name: Option<&PathName>) -> bool {
    out_is_dir || match out_name {
        Some(name) => !has_extension(name@),
        None => true,
    }
}

/// The names of the splat files among the entries of a folder, in order.
fn splats_in(names: &Vec<PathName>) -> (plys: Vec<PathName>)
    ensures
        in_name_order(views(plys@)),
        views(plys@).to_multiset() == splat_names(names@).to_multiset(),
{
    let ghost choice = |i: int| extension_is(names@[i]@, "ply"@);
    let mut found: Vec<PathName> = Vec::new();
    let mut i: usize = 0;
    while i < names.len()
        invariant
            i <= names@.len(),
            choice == (|i: int| extension_is(names@[i]@, "ply"@)),
            views(found@) == chosen(views(names@).take(i as int), choice),
        decreases names.len() - i,
    {
        proof {
            reveal_strlit("ply");
            let taken = views(names@).take(i + 1);
            assert(taken.drop_last() =~= views(names@).take(i as int));
            assert(taken.last() == names@[i as int]@);
        }
        let ghost before = found@;
        if names[i].extension_is("ply") {
            found.push(names[i].clone());
            assert(views(found@) =~= views(before).push(names@[i as int]@));
        }
        i = i + 1;
    }
    assert(views(names@).take(i as int) =~= views(names@));
    sort_names(&found)
}

/// Plans what is rendered. `folder` has the names of the entries of the source,
/// if that is a folder; `out_name` is the file name of the output path.
pub fn plan_jobs(
    folder: Option<&Vec<PathName>>,
    out_is_dir: bool,
    out_name: Option<&PathName>,
) -> (outcome: Result<RenderPlan, RenderError>)
    ensures
        match folder {
            None => outcome matches Ok(RenderPlan::Single),
            Some(names) => if splat_names(names@).len() == 0 {
                outcome matches Err(RenderError::NoSplats)
            } else {
                outcome matches Ok(RenderPlan::Folder { collect, jobs }) && collect == collects(
                    out_is_dir,
                    out_name,
                ) && in_name_order(job_plys(jobs@)) && job_plys(jobs@).to_multiset()
                    == splat_names(names@).to_multiset() && videos_named_after(jobs@)
            },
        },
        folder is None <==> (outcome matches Ok(RenderPlan::Single)),
        outcome matches Ok(RenderPlan::Folder { collect, jobs }) ==> {
            &&& jobs@.len() > 0
            &&& collect == (out_is_dir || out_name is None || (out_name matches Some(name)
                && !has_extension(name@)))
            &&& forall|i: int|
                0 <= i < jobs@.len() ==> extension_is((#[trigger] jobs@[i]).ply@, "ply"@)
                    && jobs@[i].video@ == with_extension(jobs@[i].ply@, ascii("mp4"@))
            &&& forall|i: int, j: int|
                0 <= i < j < jobs@.len() ==> bytes_at_most(
                    (#[trigger] jobs@[i]).ply@,
                    (#[trigger] jobs@[j]).ply@,
                )
        },
        outcome is Err ==> (folder matches Some(names) && forall|i: int|
            0 <= i < names@.len() ==> !extension_is((#[trigger] names@[i])@, "ply"@)),
{
    let names = match folder {
        None => {
            return Ok(RenderPlan::Single);
        },
        Some(names) => names,
    };
    let plys = splats_in(names);
    proof {
        views(plys@).to_multiset_ensures();
        splat_names(names@).to_multiset_ensures();
        assert(views(plys@).len() == splat_names(names@).len());
    }
    if plys.len() == 0 {
        proof {
            assert forall|i: int| 0 <= i < names@.len() implies !extension_is(
                (#[trigger] names@[i])@,
                "ply"@,
            ) by {
                law_splat_names(names@, names@[i]@);
            }
        }
        return Err(RenderError::NoSplats);
    }
    let collect = out_is_dir || match out_name {
        Some(name) => !name.has_extension(),
        None => true,
    };
    proof {
        reveal_strlit("mp4");
    }
    let mut jobs: Vec<RenderJob> = Vec::new();
    let mut i: usize = 0;
    while i < plys.len()
        invariant
            i <= plys@.len(),
            is_ascii_chars("mp4"@),
            job_plys(jobs@) == views(plys@).take(i as int),
            videos_named_after(jobs@),
        decreases plys.len() - i,
    {
        let video = plys[i].with_extension("mp4");
        let ghost before = jobs@;
        jobs.push(RenderJob { ply: plys[i].clone(), video });
        proof {
            let ply = plys@[i as int]@;
            assert(job_plys(jobs@) =~= job_plys(before).push(ply));
            assert(views(plys@).take(i + 1) =~= views(plys@).take(i as int).push(ply));
        }
        i = i + 1;
    }
    assert(views(plys@).take(i as int) =~= views(plys@));
    proof {
        let found = job_plys(jobs@);
        assert forall|i: int| 0 <= i < jobs@.len() implies extension_is(
            (#[trigger] jobs@[i]).ply@,
            "ply"@,
        ) by {
            assert(found[i] == jobs@[i].ply@);
            assert(found.contains(found[i]));
            found.to_multiset_ensures();
            splat_names(names@).to_multiset_ensures();
            assert(found =~= views(plys@));
            assert(found.to_multiset().count(found[i]) > 0);
            assert(splat_names(names@).to_multiset().count(found[i]) > 0);
            assert(splat_names(names@).contains(found[i]));
            law_splat_names(names@, found[i]);
        }
        assert forall|i: int, j: int| 0 <= i < j < jobs@.len() implies bytes_at_most(
            (#[trigger] jobs@[i]).ply@,
            (#[trigger] jobs@[j]).ply@,
        ) by {
            assert(bytes_at_most(found[i], found[j]));
        }
    }
    Ok(RenderPlan::Folder { collect, jobs })
}

/// The splat files of a folder are its entries with the extension `ply`, each as
/// often as it occurs.
pub proof fn law_splat_names(names: Seq<PathName>, name: Seq<u8>)
    ensures
        splat_names(names).contains(name) <==> exists|i: int|
            0 <= i < names.len() && (#[trigger] names[i])@ == name && extension_is(
                names[i]@,
                "ply"@,
            ),
        splat_names(names).to_multiset().count(name) == Seq::new(
            names.len(),
            |i: int| names[i]@ == name && extension_is(names[i]@, "ply"@),
        ).to_multiset().count(true),
{
    let choice = |i: int| extension_is(names[i]@, "ply"@);
    let all = views(names);
    law_chosen_names(all, choice, name);
    let marks = Seq::new(all.len(), |i: int| all[i] == name && choice(i));
    assert(marks =~= Seq::new(
        names.len(),
        |i: int| names[i]@ == name && extension_is(names[i]@, "ply"@),
    ));
    if exists|i: int|
        0 <= i < names.len() && (#[trigger] names[i])@ == name && extension_is(
            names[i]@,
            "ply"@,
        ) {
        let i = choose|i: int|
            0 <= i < names.len() && (#[trigger] names[i])@ == name && extension_is(
                names[i]@,
                "ply"@,
            );
        assert(all[i] == name && choice(i));
    }
}

/// The video of `X.ply` is `X.mp4`, whatever `X` is.
pub proof fn law_video_beside_splats(before: Seq<u8>, ply: Seq<u8>)
    requires
        before.len() > 0,
        ply.len() > 0,
        forall|i: int| 0 <= i < ply.len() ==> #[trigger] ply[i] != 0x2e,
    ensures
        with_extension(before.push(0x2e) + ply, ascii("mp4"@)) == before.push(0x2e) + seq![
            0x6du8,
            0x70u8,
            0x34u8,
        ],
{
    reveal_strlit("mp4");
    law_extension_is_replaced(before, ply, ascii("mp4"@));
    assert(ascii("mp4"@) =~= seq![0x6du8, 0x70u8, 0x34u8]);
}

/// Videos are collected in an output path that is a directory, has no file
/// name, or has one without an extension; otherwise each is beside its splats.
pub proof fn law_where_videos_are_collected(out_is_dir: bool, out_name: Option<&PathName>)
    ensures
        out_is_dir ==> collects(out_is_dir, out_name),
        out_name is None ==> collects(out_is_dir, out_name),
        !out_is_dir ==> (out_name matches Some(name) ==> collects(out_is_dir, out_name)
            == !has_extension(name@)),
{
}

/// A job's video keeps what its splats are named before the last dot, and has
/// the extension `mp4`.
pub proof fn law_job_names(jobs: Seq<RenderJob>, i: int, before: Seq<u8>, ply: Seq<u8>)
    requires
        videos_named_after(jobs),
        0 <= i < jobs.len(),
        before.len() > 0,
        ply.len() > 0,
        forall|k: int| 0 <= k < ply.len() ==> #[trigger] ply[k] != 0x2e,
        jobs[i].ply@ == before.push(0x2e) + ply,
    ensures
        job_plys(jobs)[i] == before.push(0x2e) + ply,
        jobs[i].video@ == before.push(0x2e) + seq![0x6du8, 0x70u8, 0x34u8],
{
    law_video_beside_splats(before, ply);
    assert(jobs[i].video@ == with_extension(jobs[i].ply@, ascii("mp4"@)));
}

} // verus!
