use path_tracer::fixed::Fixed;
use path_tracer::hittable::{Hittable, Intersection};
use path_tracer::interval::Interval;
use path_tracer::material::Material;
use path_tracer::ray::{Ray, ORIGIN_REACH};
use path_tracer::scene::Scene;
use path_tracer::sphere::{Sphere, SPHERE_REACH};
use path_tracer::vec3::Vec3;

fn fx(raw: i64) -> Fixed {
    Fixed::from_raw(raw)
}

fn v(x: i64, y: i64, z: i64) -> Vec3 {
    Vec3::new(Fixed::from_int(x), Fixed::from_int(y), Fixed::from_int(z))
}

fn raw(x: i64, y: i64, z: i64) -> Vec3 {
    Vec3::new(fx(x), fx(y), fx(z))
}

fn ahead() -> Interval {
    Interval::new(fx(1_000_000), Fixed::max_value())
}

fn grey() -> Material {
    Material::Lambertian { albedo: raw(500_000_000, 500_000_000, 500_000_000) }
}

fn unit_sphere() -> Sphere {
    Sphere::new(v(0, 0, 0), Fixed::one(), grey())
}

fn marker() -> Intersection {
    Intersection {
        point: v(9, 9, 9),
        normal: v(8, 8, 8),
        material: Material::Something {},
        t: Fixed::from_int(7),
        front_face: true,
    }
}

#[test]
fn interval_contains_its_ends_and_surrounds_what_is_between() {
    let i = Interval::new(Fixed::from_int(1), Fixed::from_int(3));
    assert!(i.contains(Fixed::from_int(1)) && i.contains(Fixed::from_int(3)));
    assert!(i.contains(Fixed::from_int(2)));
    assert!(!i.contains(fx(999_999_999)) && !i.contains(fx(3_000_000_001)));
    assert!(!i.surrounds(Fixed::from_int(1)) && !i.surrounds(Fixed::from_int(3)));
    assert!(i.surrounds(fx(1_000_000_001)) && i.surrounds(fx(2_999_999_999)));
    let empty = Interval::new(Fixed::from_int(3), Fixed::from_int(1));
    assert!(!empty.contains(Fixed::from_int(2)) && !empty.surrounds(Fixed::from_int(2)));
}

#[test]
fn ray_position_at_a_parameter() {
    let ray = Ray::new(v(1, 2, 3), v(0, -1, 2));
    assert_eq!(ray.at(Fixed::zero()), v(1, 2, 3));
    assert_eq!(ray.at(Fixed::from_int(2)), v(1, 0, 7));
    assert_eq!(ray.at(Fixed::from_int(-1)), v(1, 3, 1));
    assert_eq!(ray.at(fx(500_000_000)), raw(1_000_000_000, 1_500_000_000, 4_000_000_000));
    assert_eq!(Ray::default(), Ray::new(v(0, 0, 0), v(0, 0, 0)));
}

#[test]
fn face_normal_is_kept_against_the_ray_and_turned_along_it() {
    let ray = Ray::new(v(0, 0, 2), v(0, 0, -1));
    let mut record = marker();
    record.set_face_normal(&ray, &v(0, 0, 1));
    assert!(record.front_face);
    assert_eq!(record.normal, v(0, 0, 1));
    record.set_face_normal(&ray, &v(0, 0, -1));
    assert!(!record.front_face);
    assert_eq!(record.normal, v(0, 0, 1));
    record.set_face_normal(&ray, &v(1, 0, 0));
    assert!(!record.front_face);
    assert_eq!(record.normal, v(-1, 0, 0));
    assert_eq!(record.point, v(9, 9, 9));
    assert_eq!(record.t, Fixed::from_int(7));
    assert_eq!(record.material, Material::Something {});
}

#[test]
fn face_normal_never_points_along_the_ray() {
    let directions = [v(0, 0, -1), v(1, 2, 3), raw(-5, 7, 1_000_000_000), v(0, 0, 0)];
    let normals = [v(0, 0, 1), v(0, 0, -1), v(1, 0, 0), raw(333_333_333, -1, 999_999_999), v(0, 0, 0)];
    for direction in directions {
        for normal in normals {
            let ray = Ray::new(v(0, 0, 0), direction);
            let mut record = Intersection::default();
            record.set_face_normal(&ray, &normal);
            assert!(ray.direction.dot(&record.normal).to_raw() <= 0);
        }
    }
}

#[test]
fn default_intersection() {
    let record = Intersection::default();
    assert_eq!(record.point, v(0, 0, 0));
    assert_eq!(record.normal, v(0, 0, 0));
    assert_eq!(record.material, grey());
    assert_eq!(record.t, Fixed::zero());
    assert!(!record.front_face);
}

#[test]
fn ray_down_the_axis_hits_the_unit_sphere_at_one() {
    let ray = Ray::new(v(0, 0, 2), v(0, 0, -1));
    let mut record = marker();
    assert!(unit_sphere().hit(&ray, ahead(), &mut record));
    assert_eq!(record.t, Fixed::one());
    assert_eq!(record.point, v(0, 0, 1));
    assert_eq!(record.normal, v(0, 0, 1));
    assert!(record.front_face);
    assert_eq!(record.material, grey());
}

#[test]
fn ray_that_points_away_from_a_sphere_misses_it() {
    let ray = Ray::new(v(0, 0, 2), v(0, 0, 1));
    let mut record = marker();
    assert!(!unit_sphere().hit(&ray, ahead(), &mut record));
    assert_eq!(record, marker());
    let sideways = Ray::new(v(0, 0, 2), v(1, 0, 0));
    assert!(!unit_sphere().hit(&sideways, ahead(), &mut record));
    let skew = Ray::new(v(3, -4, 2), v(1, -1, 5));
    assert!(!unit_sphere().hit(&skew, Interval::new(Fixed::zero(), Fixed::max_value()), &mut record));
    assert_eq!(record, marker());
}

#[test]
fn a_range_that_reaches_behind_the_origin_finds_the_sphere_behind() {
    let ray = Ray::new(v(0, 0, 2), v(0, 0, 1));
    let mut record = marker();
    let range = Interval::new(Fixed::from_int(-10), Fixed::from_int(10));
    assert!(unit_sphere().hit(&ray, range, &mut record));
    assert_eq!(record.t, Fixed::from_int(-3));
    assert_eq!(record.point, v(0, 0, -1));
    assert_eq!(record.normal, v(0, 0, -1));
    assert!(record.front_face);
}

#[test]
fn ray_from_inside_hits_the_back_face() {
    let ray = Ray::new(v(0, 0, 0), v(0, 0, -1));
    let mut record = marker();
    assert!(unit_sphere().hit(&ray, ahead(), &mut record));
    assert_eq!(record.t, Fixed::one());
    assert_eq!(record.point, v(0, 0, -1));
    assert_eq!(record.normal, v(0, 0, 1));
    assert!(!record.front_face);
}

#[test]
fn ray_past_a_sphere_misses_and_a_grazing_ray_touches() {
    let mut record = marker();
    let past = Ray::new(v(0, 2, 2), v(0, 0, -1));
    assert!(!unit_sphere().hit(&past, ahead(), &mut record));
    assert_eq!(record, marker());
    let grazing = Ray::new(v(0, 1, 2), v(0, 0, -1));
    assert!(unit_sphere().hit(&grazing, ahead(), &mut record));
    assert_eq!(record.t, Fixed::from_int(2));
    assert_eq!(record.point, v(0, 1, 0));
    assert_eq!(record.normal, v(0, -1, 0));
    assert!(!record.front_face);
}

#[test]
fn the_range_decides_which_root_counts() {
    let ray = Ray::new(v(0, 0, 2), v(0, 0, -1));
    let mut record = marker();
    let short = Interval::new(fx(1_000_000), Fixed::one());
    assert!(!unit_sphere().hit(&ray, short, &mut record));
    assert_eq!(record, marker());
    let beyond_first = Interval::new(Fixed::one(), Fixed::max_value());
    assert!(unit_sphere().hit(&ray, beyond_first, &mut record));
    assert_eq!(record.t, Fixed::from_int(3));
    assert_eq!(record.point, v(0, 0, -1));
    assert_eq!(record.normal, v(0, 0, 1));
    assert!(!record.front_face);
    let mut other = marker();
    let beyond_both = Interval::new(Fixed::from_int(3), Fixed::max_value());
    assert!(!unit_sphere().hit(&ray, beyond_both, &mut other));
    assert_eq!(other, marker());
}

#[test]
fn ray_direction_need_not_have_unit_length() {
    let ray = Ray::new(v(0, 0, 2), v(0, 0, -2));
    let mut record = marker();
    assert!(unit_sphere().hit(&ray, ahead(), &mut record));
    assert_eq!(record.t, fx(500_000_000));
    assert_eq!(record.point, v(0, 0, 1));
    assert_eq!(record.normal, v(0, 0, 1));
    assert!(record.front_face);
}

#[test]
fn ray_without_direction_hits_nothing() {
    let ray = Ray::new(v(0, 0, 0), v(0, 0, 0));
    let mut record = marker();
    assert!(!unit_sphere().hit(&ray, Interval::new(Fixed::from_int(-5), Fixed::from_int(5)), &mut record));
    assert_eq!(record, marker());
}

#[test]
fn oblique_ray_hits_a_small_sphere() {
    let sphere = Sphere::new(v(0, 0, -1), fx(500_000_000), Material::Something {});
    let ray = Ray::new(v(0, 0, 0), raw(100_000_000, 200_000_000, -1_000_000_000));
    let mut record = marker();
    assert!(sphere.hit(&ray, ahead(), &mut record));
    assert_eq!(record.t, fx(513_355_028));
    assert_eq!(record.point, raw(51_335_502, 102_671_005, -513_355_028));
    assert_eq!(record.normal, raw(102_671_004, 205_342_010, 973_289_944));
    assert!(record.front_face);
    assert_eq!(record.material, Material::Something {});
}

#[test]
fn sphere_with_negative_radius_has_its_normal_turned() {
    let sphere = Sphere::new(v(0, 0, 0), Fixed::from_int(-1), Material::Something {});
    let ray = Ray::new(v(0, 0, 2), v(0, 0, -1));
    let mut record = marker();
    assert!(sphere.hit(&ray, ahead(), &mut record));
    assert_eq!(record.t, Fixed::one());
    assert_eq!(record.point, v(0, 0, 1));
    assert_eq!(record.normal, v(0, 0, 1));
    assert!(!record.front_face);
}

#[test]
fn rays_within_and_beyond_reach() {
    assert!(Ray::new(v(0, 0, 2), v(0, 0, -1)).is_in_reach());
    assert!(Ray::new(raw(ORIGIN_REACH, -ORIGIN_REACH, 0), v(1_000_000, 0, -1_000_000)).is_in_reach());
    assert!(Ray::new(v(0, 0, 19_999), raw(0, 0, 1)).is_in_reach());
    assert!(!Ray::new(raw(ORIGIN_REACH + 1, 0, 0), v(0, 0, -1)).is_in_reach());
    assert!(!Ray::new(raw(0, 0, -ORIGIN_REACH - 1), v(0, 0, -1)).is_in_reach());
    assert!(!Ray::new(v(0, 0, 200_000), v(0, 0, -2)).is_in_reach());
    assert!(Ray::default().is_in_reach());
}

#[test]
fn spheres_within_and_beyond_reach() {
    assert!(Sphere::is_fit(&v(0, 0, 0), Fixed::one()));
    assert!(Sphere::is_fit(&raw(SPHERE_REACH, -SPHERE_REACH, 0), fx(-SPHERE_REACH)));
    assert!(!Sphere::is_fit(&v(0, 0, 0), Fixed::zero()));
    assert!(!Sphere::is_fit(&v(0, 0, 0), fx(SPHERE_REACH + 1)));
    assert!(!Sphere::is_fit(&v(0, 0, 0), fx(-SPHERE_REACH - 1)));
    assert!(!Sphere::is_fit(&raw(0, SPHERE_REACH + 1, 0), Fixed::one()));
}

#[test]
fn far_rays_hit_at_the_nearer_root() {
    let mut record = marker();
    let ray = Ray::new(v(0, 0, 400), v(0, 0, -2));
    assert!(unit_sphere().hit(&ray, ahead(), &mut record));
    assert_eq!(record.t, fx(199_500_000_000));
    assert_eq!(record.point, v(0, 0, 1));
    assert_eq!(record.normal, v(0, 0, 1));
    assert!(record.front_face);
    let farthest = Ray::new(v(0, 0, 19_999), v(0, 0, -2));
    assert!(farthest.is_in_reach());
    assert!(unit_sphere().hit(&farthest, ahead(), &mut record));
    assert_eq!(record.t, fx(9_999_000_000_000));
    assert_eq!(record.point, v(0, 0, 1));
    assert_eq!(record.normal, v(0, 0, 1));
    let big = Sphere::new(v(0, -150, 0), Fixed::from_int(100), Material::Something {});
    let fast = Ray::new(v(300, -150, 0), v(-30, 0, 0));
    assert!(big.hit(&fast, ahead(), &mut record));
    assert_eq!(record.t, fx(6_666_666_666));
    assert_eq!(record.point, raw(100_000_000_020, -150_000_000_000, 0));
    assert_eq!(record.normal, v(1, 0, 0));
    assert!(record.front_face);
    let corner = Sphere::new(v(10_000, -10_000, 10_000), Fixed::from_int(10_000), Material::Something {});
    let longest = Ray::new(v(-20_000, 20_000, -20_000), v(1_000_000, -1_000_000, 1_000_000));
    assert!(longest.is_in_reach());
    assert!(corner.hit(&longest, ahead(), &mut record));
    assert_eq!(record.t, fx(24_226_497));
    assert_eq!(record.point, raw(4_226_497_000_000, -4_226_497_000_000, 4_226_497_000_000));
    assert_eq!(record.normal, raw(-577_350_300, 577_350_300, -577_350_300));
    assert!(record.front_face);
}

#[test]
fn rays_with_short_and_long_directions_hit_where_they_should() {
    let mut record = marker();
    let slow = Ray::new(v(0, 0, 2), raw(0, 0, -100_000));
    assert!(unit_sphere().hit(&slow, ahead(), &mut record));
    assert_eq!(record.t, Fixed::from_int(10_000));
    assert_eq!(record.point, v(0, 0, 1));
    assert_eq!(record.normal, v(0, 0, 1));
    let slowest = Ray::new(v(0, 0, 2), raw(0, 0, -1));
    assert!(unit_sphere().hit(&slowest, ahead(), &mut record));
    assert_eq!(record.t, Fixed::from_int(1_000_000_000));
    assert_eq!(record.point, v(0, 0, 1));
    let fast = Ray::new(v(0, 0, 2), v(0, 0, -1_000_000));
    let mut untouched = marker();
    assert!(!unit_sphere().hit(&fast, ahead(), &mut untouched));
    assert_eq!(untouched, marker());
    assert!(unit_sphere().hit(&fast, Interval::new(Fixed::zero(), Fixed::max_value()), &mut record));
    assert_eq!(record.t, fx(1_000));
    assert_eq!(record.point, v(0, 0, 1));
    assert_eq!(record.normal, v(0, 0, 1));
    assert!(record.front_face);
}

#[test]
fn empty_scene_is_never_hit() {
    let scene: Scene<Sphere> = Scene::new();
    let ray = Ray::new(v(0, 0, 0), v(0, 0, -1));
    let mut record = marker();
    assert!(!scene.hit(&ray, &ahead(), &mut record));
    assert_eq!(record, marker());
}

#[test]
fn scene_returns_the_nearest_hit_in_any_order() {
    let near = Sphere::new(
        v(0, 0, -1),
        fx(500_000_000),
        Material::Lambertian { albedo: raw(100_000_000, 200_000_000, 300_000_000) },
    );
    let far = Sphere::new(
        v(0, 0, -3),
        fx(500_000_000),
        Material::Metal { albedo: raw(800_000_000, 800_000_000, 800_000_000), fuzz: Fixed::zero() },
    );
    let aside = Sphere::new(v(5, 0, -1), fx(500_000_000), Material::Something {});
    let ray = Ray::new(v(0, 0, 0), v(0, 0, -1));
    let orders: [[Sphere; 3]; 3] = [[near, far, aside], [far, aside, near], [aside, far, near]];
    for order in orders {
        let mut scene: Scene<Sphere> = Scene::new();
        for sphere in order {
            scene.push(sphere);
        }
        assert_eq!(scene.hittables.len(), 3);
        let mut record = marker();
        assert!(scene.hit(&ray, &ahead(), &mut record));
        assert_eq!(record.t, fx(500_000_000));
        assert_eq!(record.point, raw(0, 0, -500_000_000));
        assert_eq!(record.normal, v(0, 0, 1));
        assert!(record.front_face);
        assert_eq!(record.material, near.material);
    }
}

#[test]
fn scene_hit_equals_the_nearest_of_the_single_hits() {
    let spheres = [
        Sphere::new(v(0, 0, -4), Fixed::one(), Material::Something {}),
        Sphere::new(v(1, 0, -2), Fixed::one(), grey()),
        Sphere::new(v(-3, 1, -6), Fixed::from_int(2), Material::Something {}),
        Sphere::new(v(0, 5, 0), Fixed::one(), grey()),
    ];
    let rays = [
        Ray::new(v(0, 0, 0), v(0, 0, -1)),
        Ray::new(v(0, 0, 0), raw(-500_000_000, 100_000_000, -1_000_000_000)),
        Ray::new(v(0, 0, 0), v(0, 1, 0)),
        Ray::new(v(0, 0, 0), v(0, -1, 0)),
        Ray::new(v(0, 0, -10), v(0, 0, 1)),
    ];
    let mut scene: Scene<Sphere> = Scene::new();
    for sphere in spheres {
        scene.push(sphere);
    }
    for ray in rays {
        let mut best: Option<Intersection> = None;
        for sphere in spheres {
            let mut single = marker();
            if sphere.hit(&ray, ahead(), &mut single) {
                let nearer: bool = match best {
                    Some(b) => single.t.lt(b.t),
                    None => true,
                };
                if nearer {
                    best = Some(single);
                }
            }
        }
        let mut record = marker();
        let hit: bool = scene.hit(&ray, &ahead(), &mut record);
        assert_eq!(hit, best.is_some());
        match best {
            Some(b) => assert_eq!(record, b),
            None => assert_eq!(record, marker()),
        }
    }
}

#[test]
fn of_two_equally_near_hits_the_scene_keeps_the_first() {
    let first = Sphere::new(v(0, 0, -1), fx(500_000_000), Material::Something {});
    let second = Sphere::new(v(0, 0, -1), fx(500_000_000), grey());
    let ray = Ray::new(v(0, 0, 0), v(0, 0, -1));
    let mut scene: Scene<Sphere> = Scene::new();
    scene.push(first);
    scene.push(second);
    let mut record = marker();
    assert!(scene.hit(&ray, &ahead(), &mut record));
    assert_eq!(record.material, Material::Something {});
    let mut swapped: Scene<Sphere> = Scene::new();
    swapped.push(second);
    swapped.push(first);
    assert!(swapped.hit(&ray, &ahead(), &mut record));
    assert_eq!(record.material, grey());
}

#[test]
fn scene_respects_the_range() {
    let near = Sphere::new(v(0, 0, -1), fx(500_000_000), grey());
    let far = Sphere::new(v(0, 0, -3), fx(500_000_000), Material::Something {});
    let ray = Ray::new(v(0, 0, 0), v(0, 0, -1));
    let mut scene: Scene<Sphere> = Scene::new();
    scene.push(near);
    scene.push(far);
    let mut record = marker();
    assert!(scene.hit(&ray, &Interval::new(Fixed::one(), Fixed::max_value()), &mut record));
    assert_eq!(record.t, fx(1_500_000_000));
    assert!(!record.front_face);
    assert_eq!(record.material, grey());
    assert!(scene.hit(&ray, &Interval::new(Fixed::from_int(2), Fixed::max_value()), &mut record));
    assert_eq!(record.t, fx(2_500_000_000));
    assert_eq!(record.material, Material::Something {});
    let mut untouched = marker();
    assert!(!scene.hit(&ray, &Interval::new(Fixed::from_int(4), Fixed::max_value()), &mut untouched));
    assert_eq!(untouched, marker());
}
