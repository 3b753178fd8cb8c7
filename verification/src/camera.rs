//! The camera/input integrator. Each frame the render thread turns the set of
//! held keys into one movement/turn intent, scales it by the elapsed time, and
//! applies it to the camera pose; the movement is expressed in the camera's
//! locally rotated basis before it is added to the position.
//!
//! All quantities are exact fixed-point integers. Positions are kept in
//! sub-micro-units (65536 per micro-unit of world space, one world unit being
//! 1_000_000 micro-units), angles in micro-radians, and time in microseconds.
//! The movement speed is 100 world units per second, that is 100 micro-units
//! per microsecond; the turn rate is one radian per second, that is one
//! micro-radian per microsecond. The basis entries are rotation-matrix
//! coefficients scaled by 65536, so a pure translation through the identity
//! basis lands in the position fields exactly.

use vstd::prelude::*;
use crate::input::Key;
use crate::input::MouseDelta;
use crate::input::PressedKeys;

verus! {

/// The summed movement/turn intent of one frame, before scaling by time.
/// Each field is the signed number of keys pulling along that axis; with a
/// duplicate-free key set every field lies in -1 ..= 1.
#[derive(PartialEq, Eq, Structural, Clone, Copy, Debug)]
pub struct Intent {
    pub x: i32,
    pub y: i32,
    pub z: i32,
    pub yaw: i32,
    pub pitch: i32,
}

/// A displacement in position units (sub-micro-units after rotation,
/// micro-units before).
#[derive(PartialEq, Eq, Structural, Clone, Copy, Debug)]
pub struct Vec3i {
    pub x: i64,
    pub y: i64,
    pub z: i64,
}

/// The camera pose: position in sub-micro-units, yaw and pitch in
/// micro-radians. Mutated only by the render thread, never shared.
#[derive(PartialEq, Eq, Structural, Clone, Copy, Debug)]
pub struct CameraPose {
    pub x: i64,
    pub y: i64,
    pub z: i64,
    pub yaw: i64,
    pub pitch: i64,
}

/// A rotation matrix with every coefficient scaled by 65536, row major: the
/// `x*` row produces the world x component, and so on. The binary fills it
/// from the current yaw and pitch once per frame.
#[derive(PartialEq, Eq, Structural, Clone, Copy, Debug)]
pub struct Basis {
    pub xx: i64,
    pub xy: i64,
    pub xz: i64,
    pub yx: i64,
    pub yy: i64,
    pub yz: i64,
    pub zx: i64,
    pub zy: i64,
    pub zz: i64,
}

/// The unit translation a key asks for, in camera-local axes.
pub open spec fn key_move(k: Key) -> (int, int, int) {
    match k {
        Key::A => (1, 0, 0),
        Key::D => (-1, 0, 0),
        Key::W => (0, 0, 1),
        Key::S => (0, 0, -1),
        Key::LShift => (0, 1, 0),
        Key::Space => (0, -1, 0),
        _ => (0, 0, 0),
    }
}

/// The unit yaw/pitch increment a key asks for.
pub open spec fn key_turn(k: Key) -> (int, int) {
    match k {
        Key::Q => (-1, 0),
        Key::E => (1, 0),
        Key::R => (0, -1),
        Key::F => (0, 1),
        _ => (0, 0),
    }
}

/// The componentwise sum of `key_move` over a sequence of keys.
pub open spec fn sum_move(s: Seq<Key>) -> (int, int, int)
    decreases s.len(),
{
    if s.len() == 0 {
        (0, 0, 0)
    } else {
        let p = sum_move(s.drop_last());
        let m = key_move(s.last());
        (p.0 + m.0, p.1 + m.1, p.2 + m.2)
    }
}

/// The componentwise sum of `key_turn` over a sequence of keys.
pub open spec fn sum_turn(s: Seq<Key>) -> (int, int)
    decreases s.len(),
{
    if s.len() == 0 {
        (0, 0)
    } else {
        let p = sum_turn(s.drop_last());
        let t = key_turn(s.last());
        (p.0 + t.0, p.1 + t.1)
    }
}

/// One if the sequence holds the key, zero otherwise.
pub open spec fn held(s: Seq<Key>, k: Key) -> int {
    if s.contains(k) {
        1
    } else {
        0
    }
}

proof fn lemma_held_drop_last(s: Seq<Key>, k: Key)
    requires
        s.no_duplicates(),
        s.len() > 0,
    ensures
        held(s, k) == held(s.drop_last(), k) + (if s.last() == k {
            1int
        } else {
            0int
        }),
{
    let t = s.drop_last();
    if s.last() == k {
        assert(s.contains(k)) by {
            assert(s[s.len() - 1] == k);
        }
        if t.contains(k) {
            let j = choose|j: int| 0 <= j < t.len() && t[j] == k;
            assert(s[j] == k);
            assert(false);
        }
    } else {
        if s.contains(k) {
            let j = choose|j: int| 0 <= j < s.len() && s[j] == k;
            assert(t[j] == k);
        }
        if t.contains(k) {
            let j = choose|j: int| 0 <= j < t.len() && t[j] == k;
            assert(s[j] == k);
        }
    }
}

/// For a duplicate-free key set, each intent component is decided by which
/// keys are held: opposite keys cancel, so every component lies in -1 ..= 1
/// and depends on membership alone, not on the order of the entries.
pub proof fn lemma_intent_characterized(s: Seq<Key>)
    requires
        s.no_duplicates(),
    ensures
        sum_move(s).0 == held(s, Key::A) - held(s, Key::D),
        sum_move(s).1 == held(s, Key::LShift) - held(s, Key::Space),
        sum_move(s).2 == held(s, Key::W) - held(s, Key::S),
        sum_turn(s).0 == held(s, Key::E) - held(s, Key::Q),
        sum_turn(s).1 == held(s, Key::F) - held(s, Key::R),
    decreases s.len(),
{
    if s.len() == 0 {
        assert(!s.contains(Key::A));
        assert(!s.contains(Key::D));
        assert(!s.contains(Key::LShift));
        assert(!s.contains(Key::Space));
        assert(!s.contains(Key::W));
        assert(!s.contains(Key::S));
        assert(!s.contains(Key::E));
        assert(!s.contains(Key::Q));
        assert(!s.contains(Key::F));
        assert(!s.contains(Key::R));
    } else {
        let t = s.drop_last();
        assert(t.no_duplicates());
        lemma_intent_characterized(t);
        lemma_held_drop_last(s, Key::A);
        lemma_held_drop_last(s, Key::D);
        lemma_held_drop_last(s, Key::LShift);
        lemma_held_drop_last(s, Key::Space);
        lemma_held_drop_last(s, Key::W);
        lemma_held_drop_last(s, Key::S);
        lemma_held_drop_last(s, Key::E);
        lemma_held_drop_last(s, Key::Q);
        lemma_held_drop_last(s, Key::F);
        lemma_held_drop_last(s, Key::R);
    }
}

/// Two duplicate-free key sets holding the same keys produce the same frame
/// intent: the iteration order over the pressed-key set cannot influence the
/// pose.
pub proof fn lemma_intent_order_independent(s1: Seq<Key>, s2: Seq<Key>)
    requires
        s1.no_duplicates(),
        s2.no_duplicates(),
        s1.to_multiset() == s2.to_multiset(),
    ensures
        sum_move(s1) == sum_move(s2),
        sum_turn(s1) == sum_turn(s2),
{
    assert forall|k: Key| s1.contains(k) <==> s2.contains(k) by {
        vstd::seq_lib::to_multiset_contains(s1, k);
        vstd::seq_lib::to_multiset_contains(s2, k);
        assert(s1.to_multiset().count(k) == s2.to_multiset().count(k));
    }
    lemma_intent_characterized(s1);
    lemma_intent_characterized(s2);
}

/// The local displacement over one frame, in micro-units: speed times elapsed
/// time times the summed intent, componentwise.
pub open spec fn local_move_delta(m: (int, int, int), dt_us: int) -> (int, int, int) {
    (100 * dt_us * m.0, 100 * dt_us * m.1, 100 * dt_us * m.2)
}

/// The componentwise sum of each key's own scaled displacement.
pub open spec fn sum_key_displacement(s: Seq<Key>, dt_us: int) -> (int, int, int)
    decreases s.len(),
{
    if s.len() == 0 {
        (0, 0, 0)
    } else {
        let p = sum_key_displacement(s.drop_last(), dt_us);
        let d = local_move_delta(key_move(s.last()), dt_us);
        (p.0 + d.0, p.1 + d.1, p.2 + d.2)
    }
}

/// The frame displacement of a key set equals the vector sum of the
/// displacement each held key would cause on its own, all scaled by the same
/// elapsed time: translations compose additively.
pub proof fn lemma_displacement_additive(s: Seq<Key>, dt_us: int)
    ensures
        local_move_delta(sum_move(s), dt_us) == sum_key_displacement(s, dt_us),
    decreases s.len(),
{
    if s.len() > 0 {
        lemma_displacement_additive(s.drop_last(), dt_us);
        let p = sum_move(s.drop_last());
        let m = key_move(s.last());
        assert(100 * dt_us * (p.0 + m.0) == 100 * dt_us * p.0 + 100 * dt_us * m.0)
            by (nonlinear_arith);
        assert(100 * dt_us * (p.1 + m.1) == 100 * dt_us * p.1 + 100 * dt_us * m.1)
            by (nonlinear_arith);
        assert(100 * dt_us * (p.2 + m.2) == 100 * dt_us * p.2 + 100 * dt_us * m.2)
            by (nonlinear_arith);
    }
}

/// The translation and turn a single key asks for, as the executable
/// event-to-action table.
pub fn key_action(k: Key) -> (r: Intent)
    ensures
        (r.x as int, r.y as int, r.z as int) == key_move(k),
        (r.yaw as int, r.pitch as int) == key_turn(k),
{
    match k {
        Key::A => Intent { x: 1, y: 0, z: 0, yaw: 0, pitch: 0 },
        Key::D => Intent { x: -1, y: 0, z: 0, yaw: 0, pitch: 0 },
        Key::W => Intent { x: 0, y: 0, z: 1, yaw: 0, pitch: 0 },
        Key::S => Intent { x: 0, y: 0, z: -1, yaw: 0, pitch: 0 },
        Key::LShift => Intent { x: 0, y: 1, z: 0, yaw: 0, pitch: 0 },
        Key::Space => Intent { x: 0, y: -1, z: 0, yaw: 0, pitch: 0 },
        Key::Q => Intent { x: 0, y: 0, z: 0, yaw: -1, pitch: 0 },
        Key::E => Intent { x: 0, y: 0, z: 0, yaw: 1, pitch: 0 },
        Key::R => Intent { x: 0, y: 0, z: 0, yaw: 0, pitch: -1 },
        Key::F => Intent { x: 0, y: 0, z: 0, yaw: 0, pitch: 1 },
        _ => Intent { x: 0, y: 0, z: 0, yaw: 0, pitch: 0 },
    }
}

/// Sum the per-key actions of every held key into one frame intent.
pub fn frame_intent(keys: &PressedKeys) -> (r: Intent)
    requires
        keys.wf(),
    ensures
        r.x == sum_move(keys@).0,
        r.y == sum_move(keys@).1,
        r.z == sum_move(keys@).2,
        r.yaw == sum_turn(keys@).0,
        r.pitch == sum_turn(keys@).1,
        -1 <= r.x <= 1,
        -1 <= r.y <= 1,
        -1 <= r.z <= 1,
        -1 <= r.yaw <= 1,
        -1 <= r.pitch <= 1,
{
    let n = keys.len();
    let mut acc = Intent { x: 0, y: 0, z: 0, yaw: 0, pitch: 0 };
    let mut i: usize = 0;
    proof {
        assert(keys@.subrange(0, 0) =~= Seq::<Key>::empty());
    }
    while i < n
        invariant
            keys.wf(),
            n == keys@.len(),
            i <= n,
            acc.x == sum_move(keys@.subrange(0, i as int)).0,
            acc.y == sum_move(keys@.subrange(0, i as int)).1,
            acc.z == sum_move(keys@.subrange(0, i as int)).2,
            acc.yaw == sum_turn(keys@.subrange(0, i as int)).0,
            acc.pitch == sum_turn(keys@.subrange(0, i as int)).1,
            -1 <= acc.x <= 1,
            -1 <= acc.y <= 1,
            -1 <= acc.z <= 1,
            -1 <= acc.yaw <= 1,
            -1 <= acc.pitch <= 1,
        decreases n - i,
    {
        let k = keys.get(i);
        let a = key_action(k);
        proof {
            let pre = keys@.subrange(0, i as int);
            let post = keys@.subrange(0, i as int + 1);
            assert(post.drop_last() =~= pre);
            assert(post.last() == keys@[i as int]);
            assert(post.no_duplicates());
            lemma_intent_characterized(post);
        }
        acc = Intent {
            x: acc.x + a.x,
            y: acc.y + a.y,
            z: acc.z + a.z,
            yaw: acc.yaw + a.yaw,
            pitch: acc.pitch + a.pitch,
        };
        i += 1;
    }
    proof {
        assert(keys@.subrange(0, n as int) =~= keys@);
    }
    acc
}

/// Scale the frame intent by the elapsed time: 100 micro-units of translation
/// per microsecond along each engaged axis. The bounds keep every product
/// inside an `i64`.
pub fn local_displacement(intent: &Intent, dt_us: u64) -> (r: Vec3i)
    requires
        100 * dt_us <= i64::MAX,
        i64::MIN <= 100 * dt_us * intent.x <= i64::MAX,
        i64::MIN <= 100 * dt_us * intent.y <= i64::MAX,
        i64::MIN <= 100 * dt_us * intent.z <= i64::MAX,
    ensures
        r.x == 100 * dt_us * intent.x,
        r.y == 100 * dt_us * intent.y,
        r.z == 100 * dt_us * intent.z,
        (r.x as int, r.y as int, r.z as int) == local_move_delta(
            (intent.x as int, intent.y as int, intent.z as int),
            dt_us as int,
        ),
{
    let sd: i64 = 100 * (dt_us as i64);
    Vec3i { x: sd * (intent.x as i64), y: sd * (intent.y as i64), z: sd * (intent.z as i64) }
}

/// Whether every coefficient of the basis is a plausible rotation entry,
/// that is at most one in magnitude after the 65536 scaling.
pub open spec fn basis_wf(b: Basis) -> bool {
    &&& -65536 <= b.xx <= 65536
    &&& -65536 <= b.xy <= 65536
    &&& -65536 <= b.xz <= 65536
    &&& -65536 <= b.yx <= 65536
    &&& -65536 <= b.yy <= 65536
    &&& -65536 <= b.yz <= 65536
    &&& -65536 <= b.zx <= 65536
    &&& -65536 <= b.zy <= 65536
    &&& -65536 <= b.zz <= 65536
}

/// The identity basis: zero yaw and zero pitch.
pub fn identity_basis() -> (b: Basis)
    ensures
        basis_wf(b),
        b.xx == 65536 && b.xy == 0 && b.xz == 0,
        b.yx == 0 && b.yy == 65536 && b.yz == 0,
        b.zx == 0 && b.zy == 0 && b.zz == 65536,
{
    Basis { xx: 65536, xy: 0, xz: 0, yx: 0, yy: 65536, yz: 0, zx: 0, zy: 0, zz: 65536 }
}

/// The world-space image of `v` under the scaled rotation matrix, per row.
pub open spec fn rotated(b: Basis, v: (int, int, int)) -> (int, int, int) {
    (
        b.xx * v.0 + b.xy * v.1 + b.xz * v.2,
        b.yx * v.0 + b.yy * v.1 + b.yz * v.2,
        b.zx * v.0 + b.zy * v.1 + b.zz * v.2,
    )
}

proof fn lemma_mul_bound(a: int, b: int, ba: int, bb: int)
    by (nonlinear_arith)
    requires
        -ba <= a <= ba,
        -bb <= b <= bb,
        0 <= ba,
        0 <= bb,
    ensures
        -(ba * bb) <= a * b <= ba * bb,
{
}

/// Rotate a local displacement into world space. The result carries the
/// 65536 scale of the basis, which is exactly the scale of the pose position,
/// so the identity basis passes the displacement through unchanged up to that
/// fixed factor.
pub fn rotate(b: &Basis, v: &Vec3i) -> (r: Vec3i)
    requires
        basis_wf(*b),
        -0x1000_0000_0000 <= v.x <= 0x1000_0000_0000,
        -0x1000_0000_0000 <= v.y <= 0x1000_0000_0000,
        -0x1000_0000_0000 <= v.z <= 0x1000_0000_0000,
    ensures
        (r.x as int, r.y as int, r.z as int) == rotated(*b, (v.x as int, v.y as int, v.z as int)),
{
    proof {
        lemma_mul_bound(b.xx as int, v.x as int, 65536, 0x1000_0000_0000);
        lemma_mul_bound(b.xy as int, v.y as int, 65536, 0x1000_0000_0000);
        lemma_mul_bound(b.xz as int, v.z as int, 65536, 0x1000_0000_0000);
        lemma_mul_bound(b.yx as int, v.x as int, 65536, 0x1000_0000_0000);
        lemma_mul_bound(b.yy as int, v.y as int, 65536, 0x1000_0000_0000);
        lemma_mul_bound(b.yz as int, v.z as int, 65536, 0x1000_0000_0000);
        lemma_mul_bound(b.zx as int, v.x as int, 65536, 0x1000_0000_0000);
        lemma_mul_bound(b.zy as int, v.y as int, 65536, 0x1000_0000_0000);
        lemma_mul_bound(b.zz as int, v.z as int, 65536, 0x1000_0000_0000);
    }
    Vec3i {
        x: b.xx * v.x + b.xy * v.y + b.xz * v.z,
        y: b.yx * v.x + b.yy * v.y + b.yz * v.z,
        z: b.zx * v.x + b.zy * v.y + b.zz * v.z,
    }
}

/// The change of the position over one frame: the intent summed from the key
/// set, scaled by the elapsed time, rotated through the frame's basis.
pub open spec fn frame_world_delta(b: Basis, s: Seq<Key>, dt_us: int) -> (int, int, int) {
    rotated(b, local_move_delta(sum_move(s), dt_us))
}

/// The rotation is additive: rotating a sum of displacements gives the sum
/// of the rotated displacements.
pub proof fn lemma_rotation_additive(b: Basis, u: (int, int, int), v: (int, int, int))
    ensures
        rotated(b, (u.0 + v.0, u.1 + v.1, u.2 + v.2)) == (
            rotated(b, u).0 + rotated(b, v).0,
            rotated(b, u).1 + rotated(b, v).1,
            rotated(b, u).2 + rotated(b, v).2,
        ),
{
    assert(b.xx * (u.0 + v.0) == b.xx * u.0 + b.xx * v.0) by (nonlinear_arith);
    assert(b.xy * (u.1 + v.1) == b.xy * u.1 + b.xy * v.1) by (nonlinear_arith);
    assert(b.xz * (u.2 + v.2) == b.xz * u.2 + b.xz * v.2) by (nonlinear_arith);
    assert(b.yx * (u.0 + v.0) == b.yx * u.0 + b.yx * v.0) by (nonlinear_arith);
    assert(b.yy * (u.1 + v.1) == b.yy * u.1 + b.yy * v.1) by (nonlinear_arith);
    assert(b.yz * (u.2 + v.2) == b.yz * u.2 + b.yz * v.2) by (nonlinear_arith);
    assert(b.zx * (u.0 + v.0) == b.zx * u.0 + b.zx * v.0) by (nonlinear_arith);
    assert(b.zy * (u.1 + v.1) == b.zy * u.1 + b.zy * v.1) by (nonlinear_arith);
    assert(b.zz * (u.2 + v.2) == b.zz * u.2 + b.zz * v.2) by (nonlinear_arith);
}

/// The componentwise sum over the key set of each key's own displacement,
/// scaled by the same elapsed time and rotated through the same basis.
pub open spec fn sum_key_world_delta(b: Basis, s: Seq<Key>, dt_us: int) -> (int, int, int)
    decreases s.len(),
{
    if s.len() == 0 {
        (0, 0, 0)
    } else {
        let p = sum_key_world_delta(b, s.drop_last(), dt_us);
        let d = rotated(b, local_move_delta(key_move(s.last()), dt_us));
        (p.0 + d.0, p.1 + d.1, p.2 + d.2)
    }
}

/// The position delta of one frame equals the vector sum of the displacement
/// each held key causes on its own, every one scaled by the same elapsed
/// time and rotated through the same basis: simultaneous keys compose
/// additively.
pub proof fn lemma_frame_delta_is_key_sum(b: Basis, s: Seq<Key>, dt_us: int)
    ensures
        frame_world_delta(b, s, dt_us) == sum_key_world_delta(b, s, dt_us),
    decreases s.len(),
{
    if s.len() > 0 {
        let t = s.drop_last();
        lemma_frame_delta_is_key_sum(b, t, dt_us);
        let pm = sum_move(t);
        let m = key_move(s.last());
        assert(100 * dt_us * (pm.0 + m.0) == 100 * dt_us * pm.0 + 100 * dt_us * m.0)
            by (nonlinear_arith);
        assert(100 * dt_us * (pm.1 + m.1) == 100 * dt_us * pm.1 + 100 * dt_us * m.1)
            by (nonlinear_arith);
        assert(100 * dt_us * (pm.2 + m.2) == 100 * dt_us * pm.2 + 100 * dt_us * m.2)
            by (nonlinear_arith);
        let u = local_move_delta(pm, dt_us);
        let v = local_move_delta(m, dt_us);
        assert(local_move_delta(sum_move(s), dt_us) == (u.0 + v.0, u.1 + v.1, u.2 + v.2));
        lemma_rotation_additive(b, u, v);
        assert(frame_world_delta(b, s, dt_us) == (
            rotated(b, u).0 + rotated(b, v).0,
            rotated(b, u).1 + rotated(b, v).1,
            rotated(b, u).2 + rotated(b, v).2,
        ));
        assert(rotated(b, u) == frame_world_delta(b, t, dt_us));
        assert(sum_key_world_delta(b, s, dt_us) == (
            sum_key_world_delta(b, t, dt_us).0 + rotated(b, v).0,
            sum_key_world_delta(b, t, dt_us).1 + rotated(b, v).1,
            sum_key_world_delta(b, t, dt_us).2 + rotated(b, v).2,
        ));
    } else {
        assert(sum_move(s) == (0int, 0int, 0int));
        assert(local_move_delta((0int, 0int, 0int), dt_us) == (0int, 0int, 0int));
        assert(rotated(b, (0int, 0int, 0int)) == (0int, 0int, 0int));
    }
}

/// The change of (yaw, pitch) over one frame, in micro-radians.
pub open spec fn frame_turn_delta(s: Seq<Key>, dt_us: int) -> (int, int) {
    (dt_us * sum_turn(s).0, dt_us * sum_turn(s).1)
}

/// Advance the camera pose by one frame: every held key contributes its
/// displacement, rotated through the given basis, and its yaw/pitch
/// increment, all scaled by the elapsed time. The elapsed-time bound (just
/// over a day) and the sum bounds keep the fixed-point arithmetic exact.
pub fn advance_frame(pose: &mut CameraPose, keys: &PressedKeys, dt_us: u64, basis: &Basis)
    requires
        keys.wf(),
        basis_wf(*basis),
        dt_us <= 100_000_000_000,
        i64::MIN <= old(pose).x + frame_world_delta(*basis, keys@, dt_us as int).0 <= i64::MAX,
        i64::MIN <= old(pose).y + frame_world_delta(*basis, keys@, dt_us as int).1 <= i64::MAX,
        i64::MIN <= old(pose).z + frame_world_delta(*basis, keys@, dt_us as int).2 <= i64::MAX,
        i64::MIN <= old(pose).yaw + frame_turn_delta(keys@, dt_us as int).0 <= i64::MAX,
        i64::MIN <= old(pose).pitch + frame_turn_delta(keys@, dt_us as int).1 <= i64::MAX,
    ensures
        final(pose).x == old(pose).x + frame_world_delta(*basis, keys@, dt_us as int).0,
        final(pose).y == old(pose).y + frame_world_delta(*basis, keys@, dt_us as int).1,
        final(pose).z == old(pose).z + frame_world_delta(*basis, keys@, dt_us as int).2,
        final(pose).yaw == old(pose).yaw + frame_turn_delta(keys@, dt_us as int).0,
        final(pose).pitch == old(pose).pitch + frame_turn_delta(keys@, dt_us as int).1,
{
    let intent = frame_intent(keys);
    proof {
        lemma_mul_bound(100 * dt_us as int, intent.x as int, 10_000_000_000_000, 1);
        lemma_mul_bound(100 * dt_us as int, intent.y as int, 10_000_000_000_000, 1);
        lemma_mul_bound(100 * dt_us as int, intent.z as int, 10_000_000_000_000, 1);
        lemma_mul_bound(dt_us as int, intent.yaw as int, 100_000_000_000, 1);
        lemma_mul_bound(dt_us as int, intent.pitch as int, 100_000_000_000, 1);
    }
    let disp = local_displacement(&intent, dt_us);
    let world = rotate(basis, &disp);
    pose.x = pose.x + world.x;
    pose.y = pose.y + world.y;
    pose.z = pose.z + world.z;
    pose.yaw = pose.yaw + (dt_us as i64) * (intent.yaw as i64);
    pose.pitch = pose.pitch + (dt_us as i64) * (intent.pitch as i64);
}

impl CameraPose {
    /// The pose at startup: the origin, looking along the unrotated axes.
    pub fn start() -> (r: Self)
        ensures
            r.x == 0 && r.y == 0 && r.z == 0 && r.yaw == 0 && r.pitch == 0,
    {
        CameraPose { x: 0, y: 0, z: 0, yaw: 0, pitch: 0 }
    }
}

/// The input phase of one render-loop cycle: advance the pose from the held
/// keys and the elapsed time, then hand out the mouse motion gathered since
/// the previous frame and leave the accumulator at zero.
pub fn frame_update(
    pose: &mut CameraPose,
    keys: &PressedKeys,
    mouse: &mut MouseDelta,
    dt_us: u64,
    basis: &Basis,
) -> (motion: (i64, i64))
    requires
        keys.wf(),
        basis_wf(*basis),
        dt_us <= 100_000_000_000,
        i64::MIN <= old(pose).x + frame_world_delta(*basis, keys@, dt_us as int).0 <= i64::MAX,
        i64::MIN <= old(pose).y + frame_world_delta(*basis, keys@, dt_us as int).1 <= i64::MAX,
        i64::MIN <= old(pose).z + frame_world_delta(*basis, keys@, dt_us as int).2 <= i64::MAX,
        i64::MIN <= old(pose).yaw + frame_turn_delta(keys@, dt_us as int).0 <= i64::MAX,
        i64::MIN <= old(pose).pitch + frame_turn_delta(keys@, dt_us as int).1 <= i64::MAX,
    ensures
        final(pose).x == old(pose).x + frame_world_delta(*basis, keys@, dt_us as int).0,
        final(pose).y == old(pose).y + frame_world_delta(*basis, keys@, dt_us as int).1,
        final(pose).z == old(pose).z + frame_world_delta(*basis, keys@, dt_us as int).2,
        final(pose).yaw == old(pose).yaw + frame_turn_delta(keys@, dt_us as int).0,
        final(pose).pitch == old(pose).pitch + frame_turn_delta(keys@, dt_us as int).1,
        motion.0 == old(mouse)@.0,
        motion.1 == old(mouse)@.1,
        final(mouse)@ == (0int, 0int),
{
    advance_frame(pose, keys, dt_us, basis);
    mouse.read_and_reset()
}

} // verus!
