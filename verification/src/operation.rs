//! The operations that a log records, their canonical text and their printed form.

use crate::digest::{is_sha, sha_hex, sha_of};
use crate::geometry::Scalar;
use crate::text::{ascii_of_length, head, push_head};
use vstd::prelude::*;
use vstd::utf8::is_ascii_chars;

verus! {

/// The identity of a commit: the hexadecimal text of a SHA-256 digest.
pub type Sha = String;

/// A number as the host hands it over: the value itself and its two printed forms, the
/// plain one and the one that it has inside a printed structure. The library reads the
/// forms when it hashes and prints, and hands the value on when it replays.
#[derive(Debug)]
pub struct Numeral {
    pub value: Scalar,
    pub plain: String,
    pub debug: String,
}

/// A plane, known to the library by its printed form.
#[derive(Debug)]
pub struct Plane {
    pub debug: String,
}

/// A face of a sketch, known to the library by its printed form.
#[derive(Debug)]
pub struct Face {
    pub debug: String,
}

/// What the contracts read of a [`Numeral`].
pub struct NumeralView {
    pub value: Scalar,
    pub plain: Seq<char>,
    pub debug: Seq<char>,
}

impl View for Numeral {
    type V = NumeralView;

    open spec fn view(&self) -> NumeralView {
        NumeralView { value: self.value, plain: self.plain@, debug: self.debug@ }
    }
}

impl View for Plane {
    type V = Seq<char>;

    open spec fn view(&self) -> Seq<char> {
        self.debug@
    }
}

impl View for Face {
    type V = Seq<char>;

    open spec fn view(&self) -> Seq<char> {
        self.debug@
    }
}

impl Clone for Numeral {
    fn clone(&self) -> (r: Self)
        ensures
            r == *self,
    {
        Numeral { value: self.value, plain: self.plain.clone(), debug: self.debug.clone() }
    }
}

impl Clone for Plane {
    fn clone(&self) -> (r: Self)
        ensures
            r == *self,
    {
        Plane { debug: self.debug.clone() }
    }
}

impl Clone for Face {
    fn clone(&self) -> (r: Self)
        ensures
            r == *self,
    {
        Face { debug: self.debug.clone() }
    }
}

/// Every action that a log can record. A field that names an earlier commit holds its
/// identity.
#[derive(Debug)]
pub enum Operation {
    Create { nonce: String },
    Describe { description: String, commit: Sha },
    Alias { original: Sha, new: Sha },
    CreateProject { nonce: String },
    SetProjectName { project_id: Sha, name: String },
    CreateWorkbench { nonce: String },
    SetWorkbenchName { workbench_id: Sha, name: String },
    CreatePlane { nonce: String, workbench_id: Sha },
    SetPlaneName { plane_id: Sha, name: String },
    SetPlane { plane_id: Sha, plane: Plane },
    CreateSketch { nonce: String, workbench_id: Sha },
    SetSketchName { sketch_id: Sha, name: String },
    SetSketchPlane { sketch_id: Sha, plane_id: Sha },
    AddSketchRectangle { sketch_id: Sha, x: Numeral, y: Numeral, width: Numeral, height: Numeral },
    AddSketchCircle { sketch_id: Sha, x: Numeral, y: Numeral, radius: Numeral },
    AddSketchLine { sketch_id: Sha, start: (Numeral, Numeral), end: (Numeral, Numeral) },
    AddSketchHandle { sketch_id: Sha, position: (Numeral, Numeral) },
    FinalizeSketch { workbench_id: Sha, sketch_id: Sha },
    CreateFace { workbench_id: Sha, sketch_id: Sha, face: Face },
    CreateExtrusion { workbench_id: Sha, nonce: String },
    SetExtrusionName { extrusion_id: Sha, name: String },
    SetExtrusionSketch { extrusion_id: Sha, sketch_id: Sha },
    SetExtrusionHandles { extrusion_id: Sha, handles: Vec<Sha> },
    SetExtrusionDepth { extrusion_id: Sha, depth: Numeral },
}

/// What the contracts read of an [`Operation`]: the same variants over texts.
pub enum OperationView {
    Create { nonce: Seq<char> },
    Describe { description: Seq<char>, commit: Seq<char> },
    Alias { original: Seq<char>, new: Seq<char> },
    CreateProject { nonce: Seq<char> },
    SetProjectName { project_id: Seq<char>, name: Seq<char> },
    CreateWorkbench { nonce: Seq<char> },
    SetWorkbenchName { workbench_id: Seq<char>, name: Seq<char> },
    CreatePlane { nonce: Seq<char>, workbench_id: Seq<char> },
    SetPlaneName { plane_id: Seq<char>, name: Seq<char> },
    SetPlane { plane_id: Seq<char>, plane: Seq<char> },
    CreateSketch { nonce: Seq<char>, workbench_id: Seq<char> },
    SetSketchName { sketch_id: Seq<char>, name: Seq<char> },
    SetSketchPlane { sketch_id: Seq<char>, plane_id: Seq<char> },
    AddSketchRectangle {
        sketch_id: Seq<char>,
        x: NumeralView,
        y: NumeralView,
        width: NumeralView,
        height: NumeralView,
    },
    AddSketchCircle { sketch_id: Seq<char>, x: NumeralView, y: NumeralView, radius: NumeralView },
    AddSketchLine {
        sketch_id: Seq<char>,
        start: (NumeralView, NumeralView),
        end: (NumeralView, NumeralView),
    },
    AddSketchHandle { sketch_id: Seq<char>, position: (NumeralView, NumeralView) },
    FinalizeSketch { workbench_id: Seq<char>, sketch_id: Seq<char> },
    CreateFace { workbench_id: Seq<char>, sketch_id: Seq<char>, face: Seq<char> },
    CreateExtrusion { workbench_id: Seq<char>, nonce: Seq<char> },
    SetExtrusionName { extrusion_id: Seq<char>, name: Seq<char> },
    SetExtrusionSketch { extrusion_id: Seq<char>, sketch_id: Seq<char> },
    SetExtrusionHandles { extrusion_id: Seq<char>, handles: Seq<Seq<char>> },
    SetExtrusionDepth { extrusion_id: Seq<char>, depth: NumeralView },
}

/// The texts of `shas`, in order.
pub open spec fn texts(shas: Seq<String>) -> Seq<Seq<char>> {
    Seq::new(shas.len(), |i: int| shas[i]@)
}

impl View for Operation {
    type V = OperationView;

    open spec fn view(&self) -> OperationView {
        match self {
            Operation::Create { nonce } => OperationView::Create { nonce: nonce@ },
            Operation::Describe { description, commit } => OperationView::Describe {
                description: description@,
                commit: commit@,
            },
            Operation::Alias { original, new } => OperationView::Alias {
                original: original@,
                new: new@,
            },
            Operation::CreateProject { nonce } => OperationView::CreateProject { nonce: nonce@ },
            Operation::SetProjectName { project_id, name } => OperationView::SetProjectName {
                project_id: project_id@,
                name: name@,
            },
            Operation::CreateWorkbench { nonce } => OperationView::CreateWorkbench {
                nonce: nonce@,
            },
            Operation::SetWorkbenchName { workbench_id, name } => OperationView::SetWorkbenchName {
                workbench_id: workbench_id@,
                name: name@,
            },
            Operation::CreatePlane { nonce, workbench_id } => OperationView::CreatePlane {
                nonce: nonce@,
                workbench_id: workbench_id@,
            },
            Operation::SetPlaneName { plane_id, name } => OperationView::SetPlaneName {
                plane_id: plane_id@,
                name: name@,
            },
            Operation::SetPlane { plane_id, plane } => OperationView::SetPlane {
                plane_id: plane_id@,
                plane: plane@,
            },
            Operation::CreateSketch { nonce, workbench_id } => OperationView::CreateSketch {
                nonce: nonce@,
                workbench_id: workbench_id@,
            },
            Operation::SetSketchName { sketch_id, name } => OperationView::SetSketchName {
                sketch_id: sketch_id@,
                name: name@,
            },
            Operation::SetSketchPlane { sketch_id, plane_id } => OperationView::SetSketchPlane {
                sketch_id: sketch_id@,
                plane_id: plane_id@,
            },
            Operation::AddSketchRectangle {
                sketch_id,
                x,
                y,
                width,
                height,
            } => OperationView::AddSketchRectangle {
                sketch_id: sketch_id@,
                x: x@,
                y: y@,
                width: width@,
                height: height@,
            },
            Operation::AddSketchCircle { sketch_id, x, y, radius } => OperationView::AddSketchCircle {
                sketch_id: sketch_id@,
                x: x@,
                y: y@,
                radius: radius@,
            },
            Operation::AddSketchLine { sketch_id, start, end } => OperationView::AddSketchLine {
                sketch_id: sketch_id@,
                start: (start.0@, start.1@),
                end: (end.0@, end.1@),
            },
            Operation::AddSketchHandle { sketch_id, position } => OperationView::AddSketchHandle {
                sketch_id: sketch_id@,
                position: (position.0@, position.1@),
            },
            Operation::FinalizeSketch { workbench_id, sketch_id } => OperationView::FinalizeSketch {
                workbench_id: workbench_id@,
                sketch_id: sketch_id@,
            },
            Operation::CreateFace { workbench_id, sketch_id, face } => OperationView::CreateFace {
                workbench_id: workbench_id@,
                sketch_id: sketch_id@,
                face: face@,
            },
            Operation::CreateExtrusion { workbench_id, nonce } => OperationView::CreateExtrusion {
                workbench_id: workbench_id@,
                nonce: nonce@,
            },
            Operation::SetExtrusionName { extrusion_id, name } => OperationView::SetExtrusionName {
                extrusion_id: extrusion_id@,
                name: name@,
            },
            Operation::SetExtrusionSketch {
                extrusion_id,
                sketch_id,
            } => OperationView::SetExtrusionSketch {
                extrusion_id: extrusion_id@,
                sketch_id: sketch_id@,
            },
            Operation::SetExtrusionHandles {
                extrusion_id,
                handles,
            } => OperationView::SetExtrusionHandles {
                extrusion_id: extrusion_id@,
                handles: texts(handles@),
            },
            Operation::SetExtrusionDepth { extrusion_id, depth } => OperationView::SetExtrusionDepth {
                extrusion_id: extrusion_id@,
                depth: depth@,
            },
        }
    }
}

/// The texts of `parts` joined by `-`.
pub open spec fn joined(parts: Seq<Seq<char>>) -> Seq<char>
    decreases parts.len(),
{
    if parts.len() == 0 {
        Seq::empty()
    } else if parts.len() == 1 {
        parts.last()
    } else {
        joined(parts.drop_last()) + "-"@ + parts.last()
    }
}

/// The first six characters of each of `shas`, each followed by a blank.
pub open spec fn clicks(shas: Seq<Seq<char>>) -> Seq<char>
    decreases shas.len(),
{
    if shas.len() == 0 {
        Seq::empty()
    } else {
        clicks(shas.drop_last()) + head(shas.last(), 6) + " "@
    }
}

/// The printed form of a pair of numbers inside a structure.
pub open spec fn pair_text(p: (NumeralView, NumeralView)) -> Seq<char> {
    "("@ + p.0.debug + ", "@ + p.1.debug + ")"@
}

/// Whether the first six characters of `sha` can be cut off: it is ASCII and has six.
pub open spec fn short_sha(sha: Seq<char>) -> bool {
    is_ascii_chars(sha) && sha.len() >= 6
}

impl OperationView {
    /// Whether the operation creates an entity that later operations name by the
    /// identity of the creating commit: a plane, a sketch or an extrusion.
    pub open spec fn is_create(self) -> bool {
        self is CreatePlane || self is CreateSketch || self is CreateExtrusion
    }

    /// The canonical text: the fields in the order of their declaration, joined by `-`.
    /// Numbers stand in their plain form, structures in their printed form, and a list of
    /// identities as its identities joined by `-`.
    pub open spec fn serialized(self) -> Seq<char> {
        match self {
            OperationView::Create { nonce } => nonce,
            OperationView::Describe { description, commit } => description + "-"@ + commit,
            OperationView::Alias { original, new } => original + "-"@ + new,
            OperationView::CreateProject { nonce } => nonce,
            OperationView::SetProjectName { project_id, name } => project_id + "-"@ + name,
            OperationView::CreateWorkbench { nonce } => nonce,
            OperationView::SetWorkbenchName { workbench_id, name } => workbench_id + "-"@ + name,
            OperationView::CreatePlane { nonce, workbench_id } => nonce + "-"@ + workbench_id,
            OperationView::SetPlaneName { plane_id, name } => plane_id + "-"@ + name,
            OperationView::SetPlane { plane_id, plane } => plane_id + "-"@ + plane,
            OperationView::CreateSketch { nonce, workbench_id } => nonce + "-"@ + workbench_id,
            OperationView::SetSketchName { sketch_id, name } => sketch_id + "-"@ + name,
            OperationView::SetSketchPlane { sketch_id, plane_id } => sketch_id + "-"@ + plane_id,
            OperationView::AddSketchRectangle { sketch_id, x, y, width, height } => sketch_id
                + "-"@ + x.plain + "-"@ + y.plain + "-"@ + width.plain + "-"@ + height.plain,
            OperationView::AddSketchCircle { sketch_id, x, y, radius } => sketch_id + "-"@
                + x.plain + "-"@ + y.plain + "-"@ + radius.plain,
            OperationView::AddSketchLine { sketch_id, start, end } => sketch_id + "-"@
                + pair_text(start) + "-"@ + pair_text(end),
            OperationView::AddSketchHandle { sketch_id, position } => sketch_id + "-"@
                + pair_text(position),
            OperationView::FinalizeSketch { workbench_id, sketch_id } => workbench_id + "-"@
                + sketch_id,
            OperationView::CreateFace { workbench_id, sketch_id, face } => workbench_id + "-"@
                + sketch_id + "-"@ + face,
            OperationView::CreateExtrusion { workbench_id, nonce } => workbench_id + "-"@ + nonce,
            OperationView::SetExtrusionName { extrusion_id, name } => extrusion_id + "-"@ + name,
            OperationView::SetExtrusionSketch { extrusion_id, sketch_id } => extrusion_id + "-"@
                + sketch_id,
            OperationView::SetExtrusionHandles { extrusion_id, handles } => extrusion_id + "-"@
                + joined(handles),
            OperationView::SetExtrusionDepth { extrusion_id, depth } => extrusion_id + "-"@
                + depth.plain,
        }
    }

    /// The text that is hashed: the salt `cadmium`, then the canonical text.
    pub open spec fn hashed_text(self) -> Seq<char> {
        "cadmium"@ + self.serialized()
    }

    /// The content hash of the operation.
    pub open spec fn content_hash(self) -> Seq<char> {
        sha_of(self.hashed_text())
    }

    /// Whether every identity that the printed form abbreviates can be cut to six
    /// characters.
    pub open spec fn printable(self) -> bool {
        match self {
            OperationView::Create { .. } => true,
            OperationView::Describe { commit, .. } => short_sha(commit),
            OperationView::Alias { original, new } => short_sha(original) && short_sha(new),
            OperationView::CreateProject { .. } => true,
            OperationView::SetProjectName { project_id, .. } => short_sha(project_id),
            OperationView::CreateWorkbench { .. } => true,
            OperationView::SetWorkbenchName { workbench_id, .. } => short_sha(workbench_id),
            OperationView::CreatePlane { workbench_id, .. } => short_sha(workbench_id),
            OperationView::SetPlaneName { plane_id, .. } => short_sha(plane_id),
            OperationView::SetPlane { plane_id, .. } => short_sha(plane_id),
            OperationView::CreateSketch { workbench_id, .. } => short_sha(workbench_id),
            OperationView::SetSketchName { sketch_id, .. } => short_sha(sketch_id),
            OperationView::SetSketchPlane { sketch_id, plane_id } => short_sha(sketch_id)
                && short_sha(plane_id),
            OperationView::AddSketchRectangle { sketch_id, .. } => short_sha(sketch_id),
            OperationView::AddSketchCircle { sketch_id, .. } => short_sha(sketch_id),
            OperationView::AddSketchLine { sketch_id, .. } => short_sha(sketch_id),
            OperationView::AddSketchHandle { sketch_id, .. } => short_sha(sketch_id),
            OperationView::FinalizeSketch { workbench_id, sketch_id } => short_sha(workbench_id)
                && short_sha(sketch_id),
            OperationView::CreateFace { workbench_id, sketch_id, .. } => short_sha(workbench_id)
                && short_sha(sketch_id),
            OperationView::CreateExtrusion { workbench_id, .. } => short_sha(workbench_id),
            OperationView::SetExtrusionName { extrusion_id, .. } => short_sha(extrusion_id),
            OperationView::SetExtrusionSketch { extrusion_id, sketch_id } => short_sha(
                extrusion_id,
            ) && short_sha(sketch_id),
            OperationView::SetExtrusionHandles { extrusion_id, handles } => short_sha(
                extrusion_id,
            ) && forall|i: int| 0 <= i < handles.len() ==> short_sha(#[trigger] handles[i]),
            OperationView::SetExtrusionDepth { extrusion_id, .. } => short_sha(extrusion_id),
        }
    }

    /// The printed form: the name of the action, the identities that it names cut to
    /// their first six characters, and its data.
    pub open spec fn pretty_text(self) -> Seq<char> {
        match self {
            OperationView::Create { nonce } => "Create: "@ + nonce,
            OperationView::Describe { description, commit } => "Describe: "@ + head(commit, 6)
                + " '"@ + description + "'"@,
            OperationView::Alias { original, new } => "Alias: from "@ + head(original, 6)
                + " to "@ + head(new, 6),
            OperationView::CreateProject { nonce } => "CreateProject: "@ + nonce,
            OperationView::SetProjectName { project_id, name } => "SetProjectName: "@ + head(
                project_id,
                6,
            ) + " '"@ + name + "'"@,
            OperationView::CreateWorkbench { nonce } => "CreateWorkspace: "@ + nonce,
            OperationView::SetWorkbenchName { workbench_id, name } => "SetWorkspaceName: "@
                + head(workbench_id, 6) + " '"@ + name + "'"@,
            OperationView::CreatePlane { nonce, workbench_id } => "CreatePlane: "@ + head(
                workbench_id,
                6,
            ) + " "@ + nonce,
            OperationView::SetPlaneName { plane_id, name } => "SetPlaneName: "@ + head(
                plane_id,
                6,
            ) + " '"@ + name + "'"@,
            OperationView::SetPlane { plane_id, .. } => "SetPlane: "@ + head(plane_id, 6),
            OperationView::CreateSketch { nonce, workbench_id } => "CreateSketch: "@ + head(
                workbench_id,
                6,
            ) + " "@ + nonce,
            OperationView::SetSketchName { sketch_id, name } => "SetSketchName: "@ + head(
                sketch_id,
                6,
            ) + " '"@ + name + "'"@,
            OperationView::SetSketchPlane { sketch_id, plane_id } => "SetSketchPlane: "@ + head(
                sketch_id,
                6,
            ) + " "@ + head(plane_id, 6),
            OperationView::AddSketchRectangle { sketch_id, x, y, width, height } =>
                "AddSketchRectangle: "@ + head(sketch_id, 6) + " ("@ + x.plain + ", "@ + y.plain
                + ") "@ + width.plain + "x"@ + height.plain,
            OperationView::AddSketchCircle { sketch_id, x, y, radius } => "AddSketchCircle: "@
                + head(sketch_id, 6) + " ("@ + x.plain + ", "@ + y.plain + ") r="@ + radius.plain,
            OperationView::AddSketchLine { sketch_id, start, end } => "AddSketchLine: "@ + head(
                sketch_id,
                6,
            ) + " ("@ + start.0.plain + ", "@ + start.1.plain + ") to ("@ + end.0.plain + ", "@
                + end.1.plain + ")"@,
            OperationView::AddSketchHandle { sketch_id, position } => "AddSketchHandle: "@ + head(
                sketch_id,
                6,
            ) + " ("@ + position.0.plain + ", "@ + position.1.plain + ")"@,
            OperationView::FinalizeSketch { workbench_id, sketch_id } => "FinalizeSketch: "@
                + head(workbench_id, 6) + " "@ + head(sketch_id, 6),
            OperationView::CreateFace { workbench_id, sketch_id, face } => "CreateFace: "@ + head(
                workbench_id,
                6,
            ) + " "@ + head(sketch_id, 6) + " "@ + face,
            OperationView::CreateExtrusion { workbench_id, nonce } => "CreateExtrusion: "@ + head(
                workbench_id,
                6,
            ) + " "@ + nonce,
            OperationView::SetExtrusionName { extrusion_id, name } => "SetExtrusionName: "@
                + head(extrusion_id, 6) + " '"@ + name + "'"@,
            OperationView::SetExtrusionSketch { extrusion_id, sketch_id } =>
                "SetExtrusionSketch: "@ + head(extrusion_id, 6) + " "@ + head(sketch_id, 6),
            OperationView::SetExtrusionHandles { extrusion_id, handles } =>
                "SetExtrusionClicks: "@ + head(extrusion_id, 6) + " "@ + clicks(handles),
            OperationView::SetExtrusionDepth { extrusion_id, depth } => "SetExtrusionDepth: "@
                + head(extrusion_id, 6) + " "@ + depth.plain,
        }
    }
}

/// `a`, a dash, `b`.
fn dash(a: &String, b: &String) -> (r: String)
    ensures
        r@ == a@ + "-"@ + b@,
{
    let mut out = a.clone();
    out.append("-");
    out.append(b.as_str());
    out
}

/// `s`, a dash, `b`.
fn and_dash(s: String, b: &String) -> (r: String)
    ensures
        r@ == s@ + "-"@ + b@,
{
    let mut out = s;
    out.append("-");
    out.append(b.as_str());
    out
}

/// The printed form of a pair of numbers inside a structure.
fn pair_string(p: &(Numeral, Numeral)) -> (r: String)
    ensures
        r@ == pair_text((p.0@, p.1@)),
{
    let mut out = String::from_str("(");
    out.append(p.0.debug.as_str());
    out.append(", ");
    out.append(p.1.debug.as_str());
    out.append(")");
    out
}

/// `title`, then the first six characters of `sha`.
fn titled(title: &str, sha: &String) -> (r: String)
    requires
        short_sha(sha@),
    ensures
        r@ == title@ + head(sha@, 6),
{
    let mut out = String::from_str(title);
    push_head(&mut out, sha, 6);
    out
}

/// `s`, a blank, then `name` in single quotes.
fn and_quoted(s: String, name: &String) -> (r: String)
    ensures
        r@ == s@ + " '"@ + name@ + "'"@,
{
    let mut out = s;
    out.append(" '");
    out.append(name.as_str());
    out.append("'");
    out
}

/// `s`, a blank, then `t`.
fn and_word(s: String, t: &String) -> (r: String)
    ensures
        r@ == s@ + " "@ + t@,
{
    let mut out = s;
    out.append(" ");
    out.append(t.as_str());
    out
}

/// `s`, a blank, then the first six characters of `sha`.
fn and_short(s: String, sha: &String) -> (r: String)
    requires
        short_sha(sha@),
    ensures
        r@ == s@ + " "@ + head(sha@, 6),
{
    let mut out = s;
    out.append(" ");
    push_head(&mut out, sha, 6);
    out
}

/// `s`, then ` (x, y)` with both numbers in their plain form.
fn and_point(s: String, x: &Numeral, y: &Numeral) -> (r: String)
    ensures
        r@ == s@ + " ("@ + x.plain@ + ", "@ + y.plain@,
{
    let mut out = s;
    out.append(" (");
    out.append(x.plain.as_str());
    out.append(", ");
    out.append(y.plain.as_str());
    out
}

/// A copy of `shas`.
fn copy_shas(shas: &Vec<Sha>) -> (r: Vec<Sha>)
    ensures
        r@ == shas@,
{
    let mut out: Vec<Sha> = Vec::new();
    let mut i: usize = 0;
    while i < shas.len()
        invariant
            i <= shas.len(),
            out@ == shas@.subrange(0, i as int),
        decreases shas.len() - i,
    {
        out.push(shas[i].clone());
        proof {
            assert(out@ =~= shas@.subrange(0, i + 1));
        }
        i = i + 1;
    }
    proof {
        assert(shas@.subrange(0, i as int) =~= shas@);
    }
    out
}

/// Whether each of `shas` is ASCII and has six characters.
fn all_short(shas: &Vec<Sha>) -> (r: bool)
    ensures
        r == forall|i: int|
            0 <= i < texts(shas@).len() ==> short_sha(#[trigger] texts(shas@)[i]),
{
    let mut i: usize = 0;
    while i < shas.len()
        invariant
            i <= shas.len(),
            forall|j: int| 0 <= j < i ==> short_sha(#[trigger] texts(shas@)[j]),
        decreases shas.len() - i,
    {
        if !ascii_of_length(&shas[i], 6) {
            proof {
                assert(!short_sha(texts(shas@)[i as int]));
            }
            return false;
        }
        i = i + 1;
    }
    true
}

impl Clone for Operation {
    fn clone(&self) -> (r: Self)
        ensures
            r@ == self@,
    {
        match self {
            Operation::Create { nonce } => Operation::Create { nonce: nonce.clone() },
            Operation::Describe { description, commit } => Operation::Describe {
                description: description.clone(),
                commit: commit.clone(),
            },
            Operation::Alias { original, new } => Operation::Alias {
                original: original.clone(),
                new: new.clone(),
            },
            Operation::CreateProject { nonce } => Operation::CreateProject { nonce: nonce.clone() },
            Operation::SetProjectName { project_id, name } => Operation::SetProjectName {
                project_id: project_id.clone(),
                name: name.clone(),
            },
            Operation::CreateWorkbench { nonce } => Operation::CreateWorkbench {
                nonce: nonce.clone(),
            },
            Operation::SetWorkbenchName { workbench_id, name } => Operation::SetWorkbenchName {
                workbench_id: workbench_id.clone(),
                name: name.clone(),
            },
            Operation::CreatePlane { nonce, workbench_id } => Operation::CreatePlane {
                nonce: nonce.clone(),
                workbench_id: workbench_id.clone(),
            },
            Operation::SetPlaneName { plane_id, name } => Operation::SetPlaneName {
                plane_id: plane_id.clone(),
                name: name.clone(),
            },
            Operation::SetPlane { plane_id, plane } => Operation::SetPlane {
                plane_id: plane_id.clone(),
                plane: plane.clone(),
            },
            Operation::CreateSketch { nonce, workbench_id } => Operation::CreateSketch {
                nonce: nonce.clone(),
                workbench_id: workbench_id.clone(),
            },
            Operation::SetSketchName { sketch_id, name } => Operation::SetSketchName {
                sketch_id: sketch_id.clone(),
                name: name.clone(),
            },
            Operation::SetSketchPlane { sketch_id, plane_id } => Operation::SetSketchPlane {
                sketch_id: sketch_id.clone(),
                plane_id: plane_id.clone(),
            },
            Operation::AddSketchRectangle {
                sketch_id,
                x,
                y,
                width,
                height,
            } => Operation::AddSketchRectangle {
                sketch_id: sketch_id.clone(),
                x: x.clone(),
                y: y.clone(),
                width: width.clone(),
                height: height.clone(),
            },
            Operation::AddSketchCircle { sketch_id, x, y, radius } => Operation::AddSketchCircle {
                sketch_id: sketch_id.clone(),
                x: x.clone(),
                y: y.clone(),
                radius: radius.clone(),
            },
            Operation::AddSketchLine { sketch_id, start, end } => Operation::AddSketchLine {
                sketch_id: sketch_id.clone(),
                start: (start.0.clone(), start.1.clone()),
                end: (end.0.clone(), end.1.clone()),
            },
            Operation::AddSketchHandle { sketch_id, position } => Operation::AddSketchHandle {
                sketch_id: sketch_id.clone(),
                position: (position.0.clone(), position.1.clone()),
            },
            Operation::FinalizeSketch { workbench_id, sketch_id } => Operation::FinalizeSketch {
                workbench_id: workbench_id.clone(),
                sketch_id: sketch_id.clone(),
            },
            Operation::CreateFace { workbench_id, sketch_id, face } => Operation::CreateFace {
                workbench_id: workbench_id.clone(),
                sketch_id: sketch_id.clone(),
                face: face.clone(),
            },
            Operation::CreateExtrusion { workbench_id, nonce } => Operation::CreateExtrusion {
                workbench_id: workbench_id.clone(),
                nonce: nonce.clone(),
            },
            Operation::SetExtrusionName { extrusion_id, name } => Operation::SetExtrusionName {
                extrusion_id: extrusion_id.clone(),
                name: name.clone(),
            },
            Operation::SetExtrusionSketch {
                extrusion_id,
                sketch_id,
            } => Operation::SetExtrusionSketch {
                extrusion_id: extrusion_id.clone(),
                sketch_id: sketch_id.clone(),
            },
            Operation::SetExtrusionHandles {
                extrusion_id,
                handles,
            } => Operation::SetExtrusionHandles {
                extrusion_id: extrusion_id.clone(),
                handles: copy_shas(handles),
            },
            Operation::SetExtrusionDepth { extrusion_id, depth } => Operation::SetExtrusionDepth {
                extrusion_id: extrusion_id.clone(),
                depth: depth.clone(),
            },
        }
    }
}

impl Operation {
    /// Whether the operation creates a plane, a sketch or an extrusion. A cherry-pick of
    /// such an operation is followed by an alias from the old identity to the new one.
    pub fn is_create(&self) -> (r: bool)
        ensures
            r == self@.is_create(),
    {
        match self {
            Operation::CreatePlane { .. } => true,
            Operation::CreateSketch { .. } => true,
            Operation::CreateExtrusion { .. } => true,
            _ => false,
        }
    }

    /// The canonical text of the operation.
    pub fn serialize(&self) -> (r: String)
        ensures
            r@ == self@.serialized(),
    {
        match self {
            Operation::Create { nonce } => nonce.clone(),
            Operation::Describe { description, commit } => dash(description, commit),
            Operation::Alias { original, new } => dash(original, new),
            Operation::CreateProject { nonce } => nonce.clone(),
            Operation::SetProjectName { project_id, name } => dash(project_id, name),
            Operation::CreateWorkbench { nonce } => nonce.clone(),
            Operation::SetWorkbenchName { workbench_id, name } => dash(workbench_id, name),
            Operation::CreatePlane { nonce, workbench_id } => dash(nonce, workbench_id),
            Operation::SetPlaneName { plane_id, name } => dash(plane_id, name),
            Operation::SetPlane { plane_id, plane } => dash(plane_id, &plane.debug),
            Operation::CreateSketch { nonce, workbench_id } => dash(nonce, workbench_id),
            Operation::SetSketchName { sketch_id, name } => dash(sketch_id, name),
            Operation::SetSketchPlane { sketch_id, plane_id } => dash(sketch_id, plane_id),
            Operation::AddSketchRectangle { sketch_id, x, y, width, height } => {
                let s = dash(sketch_id, &x.plain);
                let s = and_dash(s, &y.plain);
                let s = and_dash(s, &width.plain);
                and_dash(s, &height.plain)
            },
            Operation::AddSketchCircle { sketch_id, x, y, radius } => {
                let s = dash(sketch_id, &x.plain);
                let s = and_dash(s, &y.plain);
                and_dash(s, &radius.plain)
            },
            Operation::AddSketchLine { sketch_id, start, end } => {
                let from = pair_string(start);
                let to = pair_string(end);
                let s = dash(sketch_id, &from);
                and_dash(s, &to)
            },
            Operation::AddSketchHandle { sketch_id, position } => {
                let at = pair_string(position);
                dash(sketch_id, &at)
            },
            Operation::FinalizeSketch { workbench_id, sketch_id } => dash(workbench_id, sketch_id),
            Operation::CreateFace { workbench_id, sketch_id, face } => {
                let s = dash(workbench_id, sketch_id);
                and_dash(s, &face.debug)
            },
            Operation::CreateExtrusion { workbench_id, nonce } => dash(workbench_id, nonce),
            Operation::SetExtrusionName { extrusion_id, name } => dash(extrusion_id, name),
            Operation::SetExtrusionSketch { extrusion_id, sketch_id } => dash(
                extrusion_id,
                sketch_id,
            ),
            Operation::SetExtrusionHandles { extrusion_id, handles } => {
                let mut list = String::new();
                let mut i: usize = 0;
                while i < handles.len()
                    invariant
                        i <= handles.len(),
                        list@ == joined(texts(handles@).subrange(0, i as int)),
                    decreases handles.len() - i,
                {
                    if i > 0 {
                        list.append("-");
                    }
                    list.append(handles[i].as_str());
                    proof {
                        let next = texts(handles@).subrange(0, i + 1);
                        assert(next.drop_last() =~= texts(handles@).subrange(0, i as int));
                        assert(next.last() == handles@[i as int]@);
                        assert(list@ =~= joined(next));
                    }
                    i = i + 1;
                }
                proof {
                    assert(texts(handles@).subrange(0, i as int) =~= texts(handles@));
                }
                dash(extrusion_id, &list)
            },
            Operation::SetExtrusionDepth { extrusion_id, depth } => dash(
                extrusion_id,
                &depth.plain,
            ),
        }
    }

    /// The content hash: the identity that the salt `cadmium` followed by the canonical
    /// text hashes to.
    pub fn hash(&self) -> (r: Sha)
        ensures
            r@ == self@.content_hash(),
            is_sha(r@),
    {
        let body = self.serialize();
        let mut salted = String::from_str("cadmium");
        salted.append(body.as_str());
        sha_hex(salted.as_str())
    }

    /// Whether [`Operation::pretty_print`] can print the operation: every identity that it
    /// abbreviates is ASCII and has at least six characters.
    pub fn is_printable(&self) -> (r: bool)
        ensures
            r == self@.printable(),
    {
        match self {
            Operation::Create { .. } => true,
            Operation::Describe { commit, .. } => ascii_of_length(commit, 6),
            Operation::Alias { original, new } => ascii_of_length(original, 6) && ascii_of_length(
                new,
                6,
            ),
            Operation::CreateProject { .. } => true,
            Operation::SetProjectName { project_id, .. } => ascii_of_length(project_id, 6),
            Operation::CreateWorkbench { .. } => true,
            Operation::SetWorkbenchName { workbench_id, .. } => ascii_of_length(workbench_id, 6),
            Operation::CreatePlane { workbench_id, .. } => ascii_of_length(workbench_id, 6),
            Operation::SetPlaneName { plane_id, .. } => ascii_of_length(plane_id, 6),
            Operation::SetPlane { plane_id, .. } => ascii_of_length(plane_id, 6),
            Operation::CreateSketch { workbench_id, .. } => ascii_of_length(workbench_id, 6),
            Operation::SetSketchName { sketch_id, .. } => ascii_of_length(sketch_id, 6),
            Operation::SetSketchPlane { sketch_id, plane_id } => ascii_of_length(sketch_id, 6)
                && ascii_of_length(plane_id, 6),
            Operation::AddSketchRectangle { sketch_id, .. } => ascii_of_length(sketch_id, 6),
            Operation::AddSketchCircle { sketch_id, .. } => ascii_of_length(sketch_id, 6),
            Operation::AddSketchLine { sketch_id, .. } => ascii_of_length(sketch_id, 6),
            Operation::AddSketchHandle { sketch_id, .. } => ascii_of_length(sketch_id, 6),
            Operation::FinalizeSketch { workbench_id, sketch_id } => ascii_of_length(
                workbench_id,
                6,
            ) && ascii_of_length(sketch_id, 6),
            Operation::CreateFace { workbench_id, sketch_id, .. } => ascii_of_length(
                workbench_id,
                6,
            ) && ascii_of_length(sketch_id, 6),
            Operation::CreateExtrusion { workbench_id, .. } => ascii_of_length(workbench_id, 6),
            Operation::SetExtrusionName { extrusion_id, .. } => ascii_of_length(extrusion_id, 6),
            Operation::SetExtrusionSketch { extrusion_id, sketch_id } => ascii_of_length(
                extrusion_id,
                6,
            ) && ascii_of_length(sketch_id, 6),
            Operation::SetExtrusionHandles { extrusion_id, handles } => {
                let a = ascii_of_length(extrusion_id, 6);
                let b = all_short(handles);
                assert(self@->SetExtrusionHandles_handles == texts(handles@));
                a && b
            },
            Operation::SetExtrusionDepth { extrusion_id, .. } => ascii_of_length(extrusion_id, 6),
        }
    }

    /// The printed form: the name of the action, each identity that it names cut to its
    /// first six characters, and its data.
    pub fn pretty_print(&self) -> (r: String)
        requires
            self@.printable(),
        ensures
            r@ == self@.pretty_text(),
    {
        match self {
            Operation::Create { nonce } => {
                let mut out = String::from_str("Create: ");
                out.append(nonce.as_str());
                out
            },
            Operation::Describe { description, commit } => and_quoted(
                titled("Describe: ", commit),
                description,
            ),
            Operation::Alias { original, new } => {
                let mut out = titled("Alias: from ", original);
                out.append(" to ");
                push_head(&mut out, new, 6);
                out
            },
            Operation::CreateProject { nonce } => {
                let mut out = String::from_str("CreateProject: ");
                out.append(nonce.as_str());
                out
            },
            Operation::SetProjectName { project_id, name } => and_quoted(
                titled("SetProjectName: ", project_id),
                name,
            ),
            Operation::CreateWorkbench { nonce } => {
                let mut out = String::from_str("CreateWorkspace: ");
                out.append(nonce.as_str());
                out
            },
            Operation::SetWorkbenchName { workbench_id, name } => and_quoted(
                titled("SetWorkspaceName: ", workbench_id),
                name,
            ),
            Operation::CreatePlane { nonce, workbench_id } => and_word(
                titled("CreatePlane: ", workbench_id),
                nonce,
            ),
            Operation::SetPlaneName { plane_id, name } => and_quoted(
                titled("SetPlaneName: ", plane_id),
                name,
            ),
            Operation::SetPlane { plane_id, .. } => titled("SetPlane: ", plane_id),
            Operation::CreateSketch { nonce, workbench_id } => and_word(
                titled("CreateSketch: ", workbench_id),
                nonce,
            ),
            Operation::SetSketchName { sketch_id, name } => and_quoted(
                titled("SetSketchName: ", sketch_id),
                name,
            ),
            Operation::SetSketchPlane { sketch_id, plane_id } => and_short(
                titled("SetSketchPlane: ", sketch_id),
                plane_id,
            ),
            Operation::AddSketchRectangle { sketch_id, x, y, width, height } => {
                let mut out = and_point(titled("AddSketchRectangle: ", sketch_id), x, y);
                out.append(") ");
                out.append(width.plain.as_str());
                out.append("x");
                out.append(height.plain.as_str());
                out
            },
            Operation::AddSketchCircle { sketch_id, x, y, radius } => {
                let mut out = and_point(titled("AddSketchCircle: ", sketch_id), x, y);
                out.append(") r=");
                out.append(radius.plain.as_str());
                out
            },
            Operation::AddSketchLine { sketch_id, start, end } => {
                let mut out = and_point(titled("AddSketchLine: ", sketch_id), &start.0, &start.1);
                out.append(") to (");
                out.append(end.0.plain.as_str());
                out.append(", ");
                out.append(end.1.plain.as_str());
                out.append(")");
                out
            },
            Operation::AddSketchHandle { sketch_id, position } => {
                let mut out = and_point(
                    titled("AddSketchHandle: ", sketch_id),
                    &position.0,
                    &position.1,
                );
                out.append(")");
                out
            },
            Operation::FinalizeSketch { workbench_id, sketch_id } => and_short(
                titled("FinalizeSketch: ", workbench_id),
                sketch_id,
            ),
            Operation::CreateFace { workbench_id, sketch_id, face } => and_word(
                and_short(titled("CreateFace: ", workbench_id), sketch_id),
                &face.debug,
            ),
            Operation::CreateExtrusion { workbench_id, nonce } => and_word(
                titled("CreateExtrusion: ", workbench_id),
                nonce,
            ),
            Operation::SetExtrusionName { extrusion_id, name } => and_quoted(
                titled("SetExtrusionName: ", extrusion_id),
                name,
            ),
            Operation::SetExtrusionSketch { extrusion_id, sketch_id } => and_short(
                titled("SetExtrusionSketch: ", extrusion_id),
                sketch_id,
            ),
            Operation::SetExtrusionHandles { extrusion_id, handles } => {
                let mut shown = String::new();
                let mut i: usize = 0;
                assert(self@->SetExtrusionHandles_handles == texts(handles@));
                while i < handles.len()
                    invariant
                        i <= handles.len(),
                        forall|j: int|
                            0 <= j < texts(handles@).len() ==> short_sha(
                                #[trigger] texts(handles@)[j],
                            ),
                        shown@ == clicks(texts(handles@).subrange(0, i as int)),
                    decreases handles.len() - i,
                {
                    proof {
                        assert(short_sha(texts(handles@)[i as int]));
                    }
                    push_head(&mut shown, &handles[i], 6);
                    shown.append(" ");
                    proof {
                        let next = texts(handles@).subrange(0, i + 1);
                        assert(next.drop_last() =~= texts(handles@).subrange(0, i as int));
                        assert(next.last() == handles@[i as int]@);
                    }
                    i = i + 1;
                }
                proof {
                    assert(texts(handles@).subrange(0, i as int) =~= texts(handles@));
                }
                and_word(titled("SetExtrusionClicks: ", extrusion_id), &shown)
            },
            Operation::SetExtrusionDepth { extrusion_id, depth } => and_word(
                titled("SetExtrusionDepth: ", extrusion_id),
                &depth.plain,
            ),
        }
    }

    /// The printed form, as [`Operation::pretty_print`] gives it.
    pub fn to_string(&self) -> (r: String)
        requires
            self@.printable(),
        ensures
            r@ == self@.pretty_text(),
    {
        self.pretty_print()
    }
}

} // verus!
