//! The ray-tracing kernel: intersection, nearest hit, lighting with
//! shadows, and recursive reflection.

use crate::color::Color;
use crate::scalar::lemma_div_nonnegative;
use crate::scalar::lemma_mul_nonnegative;
use crate::scalar::lemma_mul_one;
use crate::scalar::lemma_mul_zero;
use crate::scalar::lemma_powi_nonnegative;
use crate::scalar::Scalar;
use crate::scene::Scene;
use crate::structs::Light;
use crate::structs::Sphere;
use crate::structs::NO_SPECULAR;
use crate::vector::dot;
use crate::vector::lemma_length_nonnegative;
use crate::vector::spec_dot;
use crate::vector::Vector;
use vstd::prelude::*;

verus! {

/// Coefficient `a` of the intersection quadratic: the squared length of
/// the ray direction.
pub open spec fn quadratic_a(direction: Vector) -> Scalar {
    spec_dot(direction, direction)
}

/// Coefficient `b` of the intersection quadratic: twice the dot product of
/// the ray direction with the offset of the origin from the centre.
pub open spec fn quadratic_b(origin: Vector, direction: Vector, sphere: Sphere) -> Scalar {
    Scalar::spec_from_int(2).spec_mul(spec_dot(origin.spec_sub(sphere.center), direction))
}

/// Coefficient `c` of the intersection quadratic: the squared distance of
/// the origin from the centre, less the squared radius.
pub open spec fn quadratic_c(origin: Vector, sphere: Sphere) -> Scalar {
    let co = origin.spec_sub(sphere.center);
    spec_dot(co, co).spec_sub(sphere.radius.spec_mul(sphere.radius))
}

/// The discriminant `b * b - 4 * a * c`.
pub open spec fn discriminant(a: Scalar, b: Scalar, c: Scalar) -> Scalar {
    b.spec_mul(b).spec_sub(Scalar::spec_from_int(4).spec_mul(a).spec_mul(c))
}

/// The two roots `(-b + sqrt(d)) / (2 * a)` and `(-b - sqrt(d)) / (2 * a)`
/// for a discriminant `d` that is not negative.
pub open spec fn quadratic_roots(a: Scalar, b: Scalar, d: Scalar) -> (Scalar, Scalar) {
    let root = d.spec_sqrt();
    let twice_a = Scalar::spec_from_int(2).spec_mul(a);
    (
        b.spec_neg().spec_add(root).spec_div(twice_a),
        b.spec_neg().spec_sub(root).spec_div(twice_a),
    )
}

/// The parameters at which the ray `origin + t * direction` meets the
/// sphere, or twice infinity where it does not: when the discriminant is
/// negative, and when the direction is too short to have a squared length.
pub open spec fn spec_intersect_ray_sphere(origin: Vector, direction: Vector, sphere: Sphere) -> (
    Scalar,
    Scalar,
) {
    let a = quadratic_a(direction);
    let b = quadratic_b(origin, direction, sphere);
    let c = quadratic_c(origin, sphere);
    let d = discriminant(a, b, c);
    if d.raw < 0 || a.raw == 0 {
        (Scalar::spec_infinity(), Scalar::spec_infinity())
    } else {
        quadratic_roots(a, b, d)
    }
}

/// Solves the ray-sphere quadratic. The roots come in no particular order.
pub fn intersect_ray_sphere(origin: Vector, direction: Vector, sphere: Sphere) -> (roots: (
    Scalar,
    Scalar,
))
    ensures
        roots == spec_intersect_ray_sphere(origin, direction, sphere),
{
    let r = sphere.radius;
    let co = origin.sub(sphere.center);

    let a = dot(direction, direction);
    let b = Scalar::from_int(2).mul(dot(co, direction));
    let c = dot(co, co).sub(r.mul(r));

    let d = b.mul(b).sub(Scalar::from_int(4).mul(a).mul(c));
    if d.raw < 0 || a.raw == 0 {
        (Scalar::infinity(), Scalar::infinity())
    } else {
        let root = d.sqrt();
        let twice_a = Scalar::from_int(2).mul(a);
        (b.neg().add(root).div(twice_a), b.neg().sub(root).div(twice_a))
    }
}

/// `t` lies strictly between the two limits.
pub open spec fn in_range(t: Scalar, t_min: Scalar, t_max: Scalar) -> bool {
    t_min.raw < t.raw && t.raw < t_max.raw
}

/// The ray meets the sphere at parameter `t`, and `t` lies strictly
/// between the two limits.
pub open spec fn hits_at(
    origin: Vector,
    direction: Vector,
    sphere: Sphere,
    t_min: Scalar,
    t_max: Scalar,
    t: Scalar,
) -> bool {
    let roots = spec_intersect_ray_sphere(origin, direction, sphere);
    in_range(t, t_min, t_max) && (t == roots.0 || t == roots.1)
}

/// The nearest hit among the first `n` spheres, found by scanning them in
/// order and keeping a root only where it is strictly nearer than the
/// best so far: the index of the sphere and the parameter, or nothing and
/// infinity.
pub open spec fn closest_among(
    spheres: Seq<Sphere>,
    n: int,
    origin: Vector,
    direction: Vector,
    t_min: Scalar,
    t_max: Scalar,
) -> (Option<int>, Scalar)
    decreases n,
{
    if n <= 0 {
        (None, Scalar::spec_infinity())
    } else {
        let before = closest_among(spheres, n - 1, origin, direction, t_min, t_max);
        let roots = spec_intersect_ray_sphere(origin, direction, spheres[n - 1]);
        let first = if in_range(roots.0, t_min, t_max) && roots.0.raw < before.1.raw {
            (Some(n - 1), roots.0)
        } else {
            before
        };
        if in_range(roots.1, t_min, t_max) && roots.1.raw < first.1.raw {
            (Some(n - 1), roots.1)
        } else {
            first
        }
    }
}

/// The nearest hit of the ray among all spheres of the scene.
pub open spec fn spec_closest_intersection(
    scene: Scene,
    origin: Vector,
    direction: Vector,
    t_min: Scalar,
    t_max: Scalar,
) -> (Option<int>, Scalar) {
    closest_among(scene.spheres@, scene.spheres@.len() as int, origin, direction, t_min, t_max)
}

/// What the scan finds is the nearest hit, and the first sphere to have
/// it.
///
/// If the scan finds nothing, no sphere is met within the limits and the
/// parameter is infinity. If it finds sphere `i` at `t`, then the ray meets
/// sphere `i` at `t` within the limits, no sphere is met nearer than `t`,
/// and no sphere before `i` is met at `t`.
pub proof fn lemma_closest_is_nearest(
    spheres: Seq<Sphere>,
    n: int,
    origin: Vector,
    direction: Vector,
    t_min: Scalar,
    t_max: Scalar,
)
    requires
        0 <= n <= spheres.len(),
    ensures
        ({
            let found = closest_among(spheres, n, origin, direction, t_min, t_max);
            match found.0 {
                None => {
                    &&& found.1 == Scalar::spec_infinity()
                    &&& forall|j: int, t: Scalar|
                        0 <= j < n ==> !#[trigger] hits_at(
                            origin,
                            direction,
                            spheres[j],
                            t_min,
                            t_max,
                            t,
                        )
                },
                Some(i) => {
                    &&& 0 <= i < n
                    &&& hits_at(origin, direction, spheres[i], t_min, t_max, found.1)
                    &&& forall|j: int, t: Scalar|
                        0 <= j < n && #[trigger] hits_at(
                            origin,
                            direction,
                            spheres[j],
                            t_min,
                            t_max,
                            t,
                        ) ==> found.1.raw <= t.raw
                    &&& forall|j: int|
                        0 <= j < i ==> !#[trigger] hits_at(
                            origin,
                            direction,
                            spheres[j],
                            t_min,
                            t_max,
                            found.1,
                        )
                },
            }
        }),
    decreases n,
{
    if n > 0 {
        lemma_closest_is_nearest(spheres, n - 1, origin, direction, t_min, t_max);
    }
}

/// Finds the sphere that the ray meets first between `t_min` and `t_max`,
/// both exclusive, and the parameter of that hit. Without a hit the
/// parameter is infinity. Of several spheres met at the same nearest
/// parameter, the first in the scene wins.
pub fn closest_intersection(
    scene: &Scene,
    origin: Vector,
    direction: Vector,
    t_min: Scalar,
    t_max: Scalar,
) -> (found: (Option<Sphere>, Scalar))
    ensures
        found.1 == spec_closest_intersection(*scene, origin, direction, t_min, t_max).1,
        found.0 == match spec_closest_intersection(*scene, origin, direction, t_min, t_max).0 {
            Some(i) => Some(scene.spheres@[i]),
            None => None,
        },
        spec_closest_intersection(*scene, origin, direction, t_min, t_max).0 matches Some(i)
            ==> 0 <= i < scene.spheres@.len() && forall|j: int|
            0 <= j < i ==> !#[trigger] hits_at(
                origin,
                direction,
                scene.spheres@[j],
                t_min,
                t_max,
                found.1,
            ),
        match found.0 {
            None => {
                &&& found.1 == Scalar::spec_infinity()
                &&& forall|j: int, t: Scalar|
                    0 <= j < scene.spheres@.len() ==> !#[trigger] hits_at(
                        origin,
                        direction,
                        scene.spheres@[j],
                        t_min,
                        t_max,
                        t,
                    )
            },
            Some(sphere) => {
                &&& hits_at(origin, direction, sphere, t_min, t_max, found.1)
                &&& forall|j: int, t: Scalar|
                    0 <= j < scene.spheres@.len() && #[trigger] hits_at(
                        origin,
                        direction,
                        scene.spheres@[j],
                        t_min,
                        t_max,
                        t,
                    ) ==> found.1.raw <= t.raw
            },
        },
{
    let mut closest_t = Scalar::infinity();
    let mut closest_sphere: Option<Sphere> = None;
    let ghost mut index: Option<int> = None;

    let mut k: usize = 0;
    while k < scene.spheres.len()
        invariant
            0 <= k <= scene.spheres@.len(),
            (index, closest_t) == closest_among(
                scene.spheres@,
                k as int,
                origin,
                direction,
                t_min,
                t_max,
            ),
            closest_sphere == match index {
                Some(i) => Some(scene.spheres@[i]),
                None => None,
            },
        decreases scene.spheres@.len() - k,
    {
        let sphere = scene.spheres[k];
        let ts = intersect_ray_sphere(origin, direction, sphere);
        if t_min.raw < ts.0.raw && ts.0.raw < t_max.raw && ts.0.raw < closest_t.raw {
            closest_t = ts.0;
            closest_sphere = Some(sphere);
            proof {
                index = Some(k as int);
            }
        }
        if t_min.raw < ts.1.raw && ts.1.raw < t_max.raw && ts.1.raw < closest_t.raw {
            closest_t = ts.1;
            closest_sphere = Some(sphere);
            proof {
                index = Some(k as int);
            }
        }
        k += 1;
    }
    proof {
        lemma_closest_is_nearest(
            scene.spheres@,
            scene.spheres@.len() as int,
            origin,
            direction,
            t_min,
            t_max,
        );
    }
    (closest_sphere, closest_t)
}

/// The mirror image of `ray` about `normal`:
/// `2 * normal * dot(normal, ray) - ray`.
pub open spec fn spec_reflect_ray(ray: Vector, normal: Vector) -> Vector {
    normal.spec_scale(Scalar::spec_from_int(2)).spec_scale(spec_dot(normal, ray)).spec_sub(ray)
}

/// Reflects `ray` about `normal`. Both vectors point away from the
/// surface.
pub fn reflect_ray(ray: Vector, normal: Vector) -> (reflected: Vector)
    ensures
        reflected == spec_reflect_ray(ray, normal),
{
    normal.scale(Scalar::from_int(2)).scale(dot(normal, ray)).sub(ray)
}

/// Something lies between the point and the light: the ray from `point`
/// along `light_vector` meets a sphere after the self-intersection bias
/// and before `t_max`.
pub open spec fn is_shadowed(scene: Scene, point: Vector, light_vector: Vector, t_max: Scalar) -> bool {
    spec_closest_intersection(scene, point, light_vector, Scalar::spec_epsilon(), t_max).0 is Some
}

/// A point is in shadow exactly when some sphere of the scene is met
/// between the bias and the limit.
pub proof fn lemma_shadow_is_a_hit(scene: Scene, point: Vector, light_vector: Vector, t_max: Scalar)
    ensures
        is_shadowed(scene, point, light_vector, t_max) <==> exists|j: int, t: Scalar|
            0 <= j < scene.spheres@.len() && #[trigger] hits_at(
                point,
                light_vector,
                scene.spheres@[j],
                Scalar::spec_epsilon(),
                t_max,
                t,
            ),
{
    lemma_closest_is_nearest(
        scene.spheres@,
        scene.spheres@.len() as int,
        point,
        light_vector,
        Scalar::spec_epsilon(),
        t_max,
    );
    let found = spec_closest_intersection(scene, point, light_vector, Scalar::spec_epsilon(), t_max);
    if let Some(i) = found.0 {
        assert(hits_at(
            point,
            light_vector,
            scene.spheres@[i],
            Scalar::spec_epsilon(),
            t_max,
            found.1,
        ));
    }
}

/// The diffuse share of a light: its intensity times the cosine of the
/// angle between the normal and the light vector, or nothing where the
/// light comes from behind the surface.
pub open spec fn diffuse_term(intensity: Scalar, normal: Vector, light_vector: Vector) -> Scalar {
    let n_dot_l = spec_dot(normal, light_vector);
    if n_dot_l.raw > 0 {
        intensity.spec_mul(n_dot_l).spec_div(
            normal.spec_length().spec_mul(light_vector.spec_length()),
        )
    } else {
        Scalar::spec_zero()
    }
}

/// The specular share of a light: its intensity times the cosine of the
/// angle between the mirrored light vector and the view direction, raised
/// to the exponent; nothing where that cosine is not positive or the
/// exponent is `NO_SPECULAR`.
pub open spec fn specular_term(
    intensity: Scalar,
    normal: Vector,
    light_vector: Vector,
    view_direction: Vector,
    specular: i32,
) -> Scalar {
    let reflection = spec_reflect_ray(light_vector, normal);
    let r_dot_v = spec_dot(reflection, view_direction);
    if specular != NO_SPECULAR && r_dot_v.raw > 0 {
        intensity.spec_mul(
            r_dot_v.spec_div(
                reflection.spec_length().spec_mul(view_direction.spec_length()),
            ).spec_powi(specular as int),
        )
    } else {
        Scalar::spec_zero()
    }
}

/// The running total after a light that shines along `light_vector`: the
/// total unchanged where the point is in shadow, else the total plus the
/// diffuse and then the specular term.
pub open spec fn add_direct_light(
    scene: Scene,
    total: Scalar,
    intensity: Scalar,
    light_vector: Vector,
    t_max: Scalar,
    point: Vector,
    normal: Vector,
    view_direction: Vector,
    specular: i32,
) -> Scalar {
    if is_shadowed(scene, point, light_vector, t_max) {
        total
    } else {
        total.spec_add(diffuse_term(intensity, normal, light_vector)).spec_add(
            specular_term(intensity, normal, light_vector, view_direction, specular),
        )
    }
}

/// The running total after one more light. Ambient light adds its
/// intensity. A point light shines along the vector from the point to its
/// position and is blocked by anything up to the light itself; a
/// directional light shines along its direction and is blocked by
/// anything at all.
pub open spec fn add_light(
    scene: Scene,
    total: Scalar,
    light: Light,
    point: Vector,
    normal: Vector,
    view_direction: Vector,
    specular: i32,
) -> Scalar {
    match light {
        Light::Ambient { intensity } => total.spec_add(intensity),
        Light::Point { intensity, position } => add_direct_light(
            scene,
            total,
            intensity,
            position.spec_sub(point),
            Scalar::spec_one(),
            point,
            normal,
            view_direction,
            specular,
        ),
        Light::Directional { intensity, direction } => add_direct_light(
            scene,
            total,
            intensity,
            direction,
            Scalar::spec_infinity(),
            point,
            normal,
            view_direction,
            specular,
        ),
    }
}

/// The light that the first `n` lights of the scene shed on the point.
pub open spec fn lighting_among(
    scene: Scene,
    n: int,
    point: Vector,
    normal: Vector,
    view_direction: Vector,
    specular: i32,
) -> Scalar
    decreases n,
{
    if n <= 0 {
        Scalar::spec_zero()
    } else {
        add_light(
            scene,
            lighting_among(scene, n - 1, point, normal, view_direction, specular),
            scene.lights@[n - 1],
            point,
            normal,
            view_direction,
            specular,
        )
    }
}

/// The light that all lights of the scene shed on the point.
pub open spec fn spec_compute_lighting(
    scene: Scene,
    point: Vector,
    normal: Vector,
    view_direction: Vector,
    specular: i32,
) -> Scalar {
    lighting_among(scene, scene.lights@.len() as int, point, normal, view_direction, specular)
}

/// No light of the scene has a negative intensity.
pub open spec fn lights_nonnegative(scene: Scene) -> bool {
    forall|k: int| 0 <= k < scene.lights@.len() ==> (#[trigger] scene.lights@[k]).spec_intensity().raw >= 0
}

/// A light that is blocked adds nothing: where something lies between the
/// point and a point light, or anywhere along the direction of a
/// directional light, the running total stays as it was.
pub proof fn lemma_shadowed_light_adds_nothing(
    scene: Scene,
    total: Scalar,
    light: Light,
    point: Vector,
    normal: Vector,
    view_direction: Vector,
    specular: i32,
)
    requires
        match light {
            Light::Ambient { .. } => false,
            Light::Point { position, .. } => is_shadowed(
                scene,
                point,
                position.spec_sub(point),
                Scalar::spec_one(),
            ),
            Light::Directional { direction, .. } => is_shadowed(
                scene,
                point,
                direction,
                Scalar::spec_infinity(),
            ),
        },
    ensures
        add_light(scene, total, light, point, normal, view_direction, specular) == total,
{
}

/// A light of intensity zero or more never lowers the running total.
pub proof fn lemma_light_never_darkens(
    scene: Scene,
    total: Scalar,
    light: Light,
    point: Vector,
    normal: Vector,
    view_direction: Vector,
    specular: i32,
)
    requires
        light.spec_intensity().raw >= 0,
    ensures
        add_light(scene, total, light, point, normal, view_direction, specular).raw >= total.raw,
{
    match light {
        Light::Ambient { .. } => {},
        Light::Point { intensity, position } => {
            lemma_direct_terms_nonnegative(
                intensity,
                normal,
                position.spec_sub(point),
                view_direction,
                specular,
            );
        },
        Light::Directional { intensity, direction } => {
            lemma_direct_terms_nonnegative(intensity, normal, direction, view_direction, specular);
        },
    }
}

/// The diffuse and the specular term of a light of intensity zero or more
/// are not negative.
pub proof fn lemma_direct_terms_nonnegative(
    intensity: Scalar,
    normal: Vector,
    light_vector: Vector,
    view_direction: Vector,
    specular: i32,
)
    requires
        intensity.raw >= 0,
    ensures
        diffuse_term(intensity, normal, light_vector).raw >= 0,
        specular_term(intensity, normal, light_vector, view_direction, specular).raw >= 0,
{
    let n_dot_l = spec_dot(normal, light_vector);
    if n_dot_l.raw > 0 {
        lemma_length_nonnegative(normal);
        lemma_length_nonnegative(light_vector);
        lemma_mul_nonnegative(intensity, n_dot_l);
        lemma_mul_nonnegative(normal.spec_length(), light_vector.spec_length());
        lemma_div_nonnegative(
            intensity.spec_mul(n_dot_l),
            normal.spec_length().spec_mul(light_vector.spec_length()),
        );
    }
    let reflection = spec_reflect_ray(light_vector, normal);
    let r_dot_v = spec_dot(reflection, view_direction);
    if specular != NO_SPECULAR && r_dot_v.raw > 0 {
        lemma_length_nonnegative(reflection);
        lemma_length_nonnegative(view_direction);
        let lengths = reflection.spec_length().spec_mul(view_direction.spec_length());
        lemma_mul_nonnegative(reflection.spec_length(), view_direction.spec_length());
        lemma_div_nonnegative(r_dot_v, lengths);
        lemma_powi_nonnegative(r_dot_v.spec_div(lengths), specular as int);
        lemma_mul_nonnegative(intensity, r_dot_v.spec_div(lengths).spec_powi(specular as int));
    }
}

/// Where no light has a negative intensity, the light on a point is not
/// negative.
pub proof fn lemma_lighting_nonnegative(
    scene: Scene,
    n: int,
    point: Vector,
    normal: Vector,
    view_direction: Vector,
    specular: i32,
)
    requires
        lights_nonnegative(scene),
        n <= scene.lights@.len(),
    ensures
        lighting_among(scene, n, point, normal, view_direction, specular).raw >= 0,
    decreases n,
{
    if n > 0 {
        lemma_lighting_nonnegative(scene, n - 1, point, normal, view_direction, specular);
        lemma_light_never_darkens(
            scene,
            lighting_among(scene, n - 1, point, normal, view_direction, specular),
            scene.lights@[n - 1],
            point,
            normal,
            view_direction,
            specular,
        );
    }
}

/// Sums the ambient, diffuse and specular light that reaches `point` on a
/// surface with unit normal `normal`, seen from `view_direction`. A light
/// that something blocks adds nothing.
pub fn compute_lighting(
    scene: &Scene,
    point: Vector,
    normal: Vector,
    view_direction: Vector,
    specular: i32,
) -> (intensity: Scalar)
    ensures
        intensity == spec_compute_lighting(*scene, point, normal, view_direction, specular),
        lights_nonnegative(*scene) ==> intensity.raw >= 0,
{
    proof {
        if lights_nonnegative(*scene) {
            lemma_lighting_nonnegative(
                *scene,
                scene.lights@.len() as int,
                point,
                normal,
                view_direction,
                specular,
            );
        }
    }
    let mut intensity = Scalar::zero();

    let mut k: usize = 0;
    while k < scene.lights.len()
        invariant
            0 <= k <= scene.lights@.len(),
            intensity == lighting_among(
                *scene,
                k as int,
                point,
                normal,
                view_direction,
                specular,
            ),
        decreases scene.lights@.len() - k,
    {
        let light = scene.lights[k];
        k += 1;
        let (light_intensity, light_vector, t_max) = match light {
            Light::Ambient { intensity: ambient } => {
                intensity = intensity.add(ambient);
                continue;
            },
            Light::Point { intensity: of_light, position } => (
                of_light,
                position.sub(point),
                Scalar::one(),
            ),
            Light::Directional { intensity: of_light, direction } => (
                of_light,
                direction,
                Scalar::infinity(),
            ),
        };

        // shadow
        let (shadow_sphere, _) = closest_intersection(
            scene,
            point,
            light_vector,
            Scalar::epsilon(),
            t_max,
        );
        if shadow_sphere.is_some() {
            continue;
        }
        // diffuse
        let n_dot_l = dot(normal, light_vector);
        if n_dot_l.raw > 0 {
            intensity = intensity.add(
                light_intensity.mul(n_dot_l).div(normal.length().mul(light_vector.length())),
            );
        }
        // specular
        if specular != NO_SPECULAR {
            let reflection = reflect_ray(light_vector, normal);
            let r_dot_v = dot(reflection, view_direction);
            if r_dot_v.raw > 0 {
                intensity = intensity.add(
                    light_intensity.mul(
                        r_dot_v.div(reflection.length().mul(view_direction.length())).powi(
                            specular,
                        ),
                    ),
                );
            }
        }
    }
    intensity
}

/// The lower limit of a mirrored ray: a hundred times the
/// self-intersection bias.
pub open spec fn spec_reflection_bias() -> Scalar {
    Scalar::spec_epsilon().spec_mul(Scalar::spec_from_int(100))
}

/// The point `origin + t * direction`.
pub open spec fn hit_point(origin: Vector, direction: Vector, t: Scalar) -> Vector {
    origin.spec_add(direction.spec_scale(t))
}

/// The outward normal of the sphere at `point`: the offset from the centre
/// divided by its own length.
pub open spec fn surface_normal(point: Vector, sphere: Sphere) -> Vector {
    let offset = point.spec_sub(sphere.center);
    offset.spec_div(offset.spec_length())
}

/// The colour of the sphere under the light that reaches the place where
/// the ray meets it at `t`, without any reflection.
pub open spec fn local_color(
    scene: Scene,
    sphere: Sphere,
    origin: Vector,
    direction: Vector,
    t: Scalar,
) -> Color {
    let point = hit_point(origin, direction, t);
    let normal = surface_normal(point, sphere);
    sphere.color.spec_mul(
        spec_compute_lighting(scene, point, normal, direction.spec_neg(), sphere.specular),
    )
}

/// The linear blend `local * (1 - reflective) + reflected * reflective`.
pub open spec fn spec_composite(local: Color, reflected: Color, reflective: Scalar) -> Color {
    local.spec_mul(Scalar::spec_one().spec_sub(reflective)).spec_add(
        reflected.spec_mul(reflective),
    )
}

/// The colour that arrives along the ray: the background where it meets
/// nothing, else the local colour of the nearest sphere, blended with the
/// colour that arrives along the mirrored ray while `depth` is positive
/// and the sphere reflects.
pub open spec fn spec_trace_ray(
    scene: Scene,
    origin: Vector,
    direction: Vector,
    t_min: Scalar,
    t_max: Scalar,
    depth: int,
) -> Color
    decreases depth,
{
    let found = spec_closest_intersection(scene, origin, direction, t_min, t_max);
    match found.0 {
        None => scene.background_color,
        Some(i) => {
            let sphere = scene.spheres@[i];
            let local = local_color(scene, sphere, origin, direction, found.1);
            if depth <= 0 || sphere.reflective.raw <= 0 {
                local
            } else {
                let point = hit_point(origin, direction, found.1);
                let normal = surface_normal(point, sphere);
                let reflected = spec_trace_ray(
                    scene,
                    point,
                    spec_reflect_ray(direction.spec_neg(), normal),
                    spec_reflection_bias(),
                    Scalar::spec_infinity(),
                    depth - 1,
                );
                spec_composite(local, reflected, sphere.reflective)
            }
        },
    }
}

/// No sphere of the scene is met by the ray within the limits.
pub open spec fn misses_all(
    scene: Scene,
    origin: Vector,
    direction: Vector,
    t_min: Scalar,
    t_max: Scalar,
) -> bool {
    forall|j: int, t: Scalar|
        0 <= j < scene.spheres@.len() ==> !#[trigger] hits_at(
            origin,
            direction,
            scene.spheres@[j],
            t_min,
            t_max,
            t,
        )
}

/// A ray that misses every sphere has exactly the background colour,
/// whatever the depth.
pub proof fn lemma_miss_is_background(
    scene: Scene,
    origin: Vector,
    direction: Vector,
    t_min: Scalar,
    t_max: Scalar,
    depth: int,
)
    requires
        misses_all(scene, origin, direction, t_min, t_max),
    ensures
        spec_trace_ray(scene, origin, direction, t_min, t_max, depth) == scene.background_color,
{
    lemma_closest_is_nearest(
        scene.spheres@,
        scene.spheres@.len() as int,
        origin,
        direction,
        t_min,
        t_max,
    );
}

/// Without depth left the result is the background or the local colour
/// of the nearest sphere: no mirrored ray is followed, however strongly
/// the sphere reflects.
pub proof fn lemma_no_depth_is_local(
    scene: Scene,
    origin: Vector,
    direction: Vector,
    t_min: Scalar,
    t_max: Scalar,
    depth: int,
)
    requires
        depth <= 0,
    ensures
        spec_trace_ray(scene, origin, direction, t_min, t_max, depth) == ({
            let found = spec_closest_intersection(scene, origin, direction, t_min, t_max);
            match found.0 {
                None => scene.background_color,
                Some(i) => local_color(scene, scene.spheres@[i], origin, direction, found.1),
            }
        }),
{
}

/// A sphere that does not reflect shows its local colour, whatever the
/// depth.
pub proof fn lemma_matte_is_local(
    scene: Scene,
    origin: Vector,
    direction: Vector,
    t_min: Scalar,
    t_max: Scalar,
    depth: int,
)
    requires
        spec_closest_intersection(scene, origin, direction, t_min, t_max).0 matches Some(i)
            && scene.spheres@[i].reflective.raw <= 0,
    ensures
        spec_trace_ray(scene, origin, direction, t_min, t_max, depth) == ({
            let found = spec_closest_intersection(scene, origin, direction, t_min, t_max);
            local_color(scene, scene.spheres@[found.0->0], origin, direction, found.1)
        }),
{
}

/// The number of rays that `spec_trace_ray` follows: the given ray, and
/// the mirrored rays after it for as long as it recurses.
pub open spec fn rays_followed(
    scene: Scene,
    origin: Vector,
    direction: Vector,
    t_min: Scalar,
    t_max: Scalar,
    depth: int,
) -> nat
    decreases depth,
{
    let found = spec_closest_intersection(scene, origin, direction, t_min, t_max);
    match found.0 {
        None => 1,
        Some(i) => {
            let sphere = scene.spheres@[i];
            if depth <= 0 || sphere.reflective.raw <= 0 {
                1
            } else {
                let point = hit_point(origin, direction, found.1);
                let normal = surface_normal(point, sphere);
                1 + rays_followed(
                    scene,
                    point,
                    spec_reflect_ray(direction.spec_neg(), normal),
                    spec_reflection_bias(),
                    Scalar::spec_infinity(),
                    depth - 1,
                )
            }
        },
    }
}

/// At most `depth + 1` rays are followed, and exactly one where no depth
/// is left.
pub proof fn lemma_rays_followed_bounded(
    scene: Scene,
    origin: Vector,
    direction: Vector,
    t_min: Scalar,
    t_max: Scalar,
    depth: int,
)
    ensures
        depth <= 0 ==> rays_followed(scene, origin, direction, t_min, t_max, depth) == 1,
        depth >= 0 ==> rays_followed(scene, origin, direction, t_min, t_max, depth) <= depth + 1,
    decreases depth,
{
    let found = spec_closest_intersection(scene, origin, direction, t_min, t_max);
    if let Some(i) = found.0 {
        let sphere = scene.spheres@[i];
        if depth > 0 && sphere.reflective.raw > 0 {
            let point = hit_point(origin, direction, found.1);
            let normal = surface_normal(point, sphere);
            lemma_rays_followed_bounded(
                scene,
                point,
                spec_reflect_ray(direction.spec_neg(), normal),
                spec_reflection_bias(),
                Scalar::spec_infinity(),
                depth - 1,
            );
        }
    }
}

/// With a reflective coefficient of zero the blend is the local colour
/// exactly: the reflected colour has no weight.
pub proof fn lemma_composite_matte(local: Color, reflected: Color)
    ensures
        spec_composite(local, reflected, Scalar::spec_zero()) == local,
{
    lemma_mul_one(local.r);
    lemma_mul_one(local.g);
    lemma_mul_one(local.b);
    lemma_mul_zero(reflected.r);
    lemma_mul_zero(reflected.g);
    lemma_mul_zero(reflected.b);
}

/// Blends the local colour of a surface with the colour of its mirrored
/// ray.
pub fn composite(local: Color, reflected: Color, reflective: Scalar) -> (blend: Color)
    ensures
        blend == spec_composite(local, reflected, reflective),
        reflective == Scalar::spec_zero() ==> blend == local,
{
    proof {
        lemma_composite_matte(local, reflected);
    }
    local.mul(Scalar::one().sub(reflective)).add(reflected.mul(reflective))
}

/// Follows the ray into the scene and returns the colour that arrives
/// along it, following mirrored rays up to `recursion_depth` times.
pub fn trace_ray(
    scene: &Scene,
    origin: Vector,
    direction: Vector,
    t_min: Scalar,
    t_max: Scalar,
    recursion_depth: i32,
) -> (color: Color)
    ensures
        color == spec_trace_ray(*scene, origin, direction, t_min, t_max, recursion_depth as int),
        misses_all(*scene, origin, direction, t_min, t_max) ==> color == scene.background_color,
    decreases recursion_depth,
{
    let (closest_sphere, closest_t) = closest_intersection(scene, origin, direction, t_min, t_max);

    match closest_sphere {
        None => scene.background_color,
        Some(sphere) => {
            let point = origin.add(direction.scale(closest_t));
            let mut normal = point.sub(sphere.center);
            normal = normal.div(normal.length());
            let local_color = sphere.color.mul(
                compute_lighting(scene, point, normal, direction.neg(), sphere.specular),
            );

            let reflectivity = sphere.reflective;
            if recursion_depth <= 0 || reflectivity.raw <= 0 {
                return local_color;
            }
            let reflected_ray = reflect_ray(direction.neg(), normal);
            let reflected_color = trace_ray(
                scene,
                point,
                reflected_ray,
                Scalar::epsilon().mul(Scalar::from_int(100)),
                Scalar::infinity(),
                recursion_depth - 1,
            );

            composite(local_color, reflected_color, reflectivity)
        },
    }
}

} // verus!
