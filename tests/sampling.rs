use raytrace::camera::ApertureShape;
use raytrace::geom::{Param, Ray, Vec3};
use raytrace::integrator::{density_usable, mixture_members, next_depth, next_step, pick_member, query_range, Event, Member, Step};
use raytrace::material::{cum_sum, n_to_xy, sample_cdf, xy_to_n, ImportanceMap};
use raytrace::object::AABox;
use raytrace::pdf::{ConstantPdf, Density, MeanDensity, MixturePdf, Pdf, UniformPdf, UNIFORM_SPHERE_UNITS};
use raytrace::texture::{hdr_image_loader, Sampler, WrapMode};
use raytrace::volume::{ConstantMedium, NonUniformMedium, Tracking};

#[test]
fn mixture_of_constants_is_their_mean() {
    let m = MixturePdf::new_uniform(vec![
        Pdf::Constant(ConstantPdf { density: Density { units: 300 } }),
        Pdf::Constant(ConstantPdf { density: Density { units: 501 } }),
    ]);
    for d in [Vec3::new(0, 0, 1), Vec3::new(3, -4, 7), Vec3::new(-1, 0, 0)] {
        let r = m.value(&d);
        assert_eq!((r.total, r.count), (801, 2));
    }
}

#[test]
fn mixture_with_uniform_member() {
    let m = MixturePdf::new_uniform(vec![
        Pdf::Uniform(UniformPdf {}),
        Pdf::Constant(ConstantPdf { density: Density { units: 1000 } }),
        Pdf::Constant(ConstantPdf { density: Density { units: 0 } }),
    ]);
    let r = m.value(&Vec3::new(0, 1, 0));
    assert_eq!((r.total, r.count), (UNIFORM_SPHERE_UNITS as u64 + 1000, 3));
    assert_eq!(UniformPdf {}.value(&Vec3::new(1, 0, 0)).units, 5215);
}

#[test]
fn mixture_picks_a_member() {
    let one = MixturePdf::new_uniform(vec![Pdf::Uniform(UniformPdf {})]);
    for _ in 0..50 {
        assert_eq!(one.generate_index(), 0);
    }
    let three = MixturePdf::new_uniform(vec![Pdf::Uniform(UniformPdf {}); 3]);
    let mut seen = [false; 3];
    for _ in 0..300 {
        let i = three.generate_index();
        assert!(i < 3);
        seen[i] = true;
    }
    assert!(seen.iter().all(|s| *s));
}

#[test]
fn depth_zero_is_black() {
    for e in [
        Event::Missed,
        Event::Absorbed,
        Event::Mirrored,
        Event::Scattered { attenuation_valid: true },
        Event::Scattered { attenuation_valid: false },
    ] {
        assert_eq!(next_step(0, e), Step::Black);
    }
}

#[test]
fn steps_by_event() {
    assert_eq!(next_step(5, Event::Missed), Step::Environment);
    assert_eq!(next_step(5, Event::Absorbed), Step::Emitted);
    assert_eq!(next_step(1, Event::Mirrored), Step::Specular);
    assert_eq!(next_step(2, Event::Scattered { attenuation_valid: true }), Step::Sampled);
    assert_eq!(next_step(2, Event::Scattered { attenuation_valid: false }), Step::Emitted);
    assert_eq!(next_depth(3), 2);
    let (lo, hi) = query_range();
    assert_eq!((lo.num, lo.den), (1, 1000));
    assert!(hi.num > 0 && hi.den == 1);
    assert!(!density_usable(&MeanDensity { total: 0, count: 3 }));
    assert!(density_usable(&MeanDensity { total: 5, count: 3 }));
}

#[test]
fn medium_span_and_free_path() {
    let fog = ConstantMedium::new(AABox::new(Vec3::new(-2, -2, -2), Vec3::new(2, 2, 2), 0), 655, 1);
    let ray = Ray::new(Vec3::new(0, 0, 10), Vec3::new(0, 0, -1));
    let (a, b) = fog.span(&ray, Param::new(1, 1000), Param::far()).unwrap();
    assert_eq!((a.num * 1, a.den), (8, 1));
    assert_eq!((b.num, b.den), (12, 1));
    assert!(fog.scatters(a, b, 3));
    assert!(fog.scatters(a, b, 4));
    assert!(!fog.scatters(a, b, 5));
    let (a, b) = fog.span(&ray, Param::new(9, 1), Param::far()).unwrap();
    assert_eq!((a.num, b.num), (9, 12));
    assert!(fog.span(&ray, Param::new(13, 1), Param::far()).is_none());
    let mut probe = ray;
    probe.albedo_normal_ray = true;
    assert!(fog.span(&probe, Param::new(0, 1), Param::far()).is_none());
    let inside = Ray::new(Vec3::new(0, 0, 0), Vec3::new(1, 0, 0));
    let (a, b) = fog.span(&inside, Param::new(-100, 1), Param::far()).unwrap();
    assert_eq!((a.num, b.num), (0, 2));
}

#[test]
fn pixel_index_round_trip() {
    assert_eq!(xy_to_n(3, 2, 10), 23);
    assert_eq!(n_to_xy(23, 10, 5), (3, 2));
    assert_eq!(n_to_xy(0, 7, 7), (0, 0));
    assert_eq!(n_to_xy(48, 7, 7), (6, 6));
}

#[test]
fn running_sums() {
    assert_eq!(cum_sum(&vec![3, 0, 4, 1]), vec![3, 3, 7, 8]);
    assert_eq!(cum_sum(&vec![]), Vec::<u64>::new());
    assert_eq!(cum_sum(&vec![u32::MAX, u32::MAX]), vec![u32::MAX as u64, 2 * u32::MAX as u64]);
}

#[test]
fn inverse_cdf_lookup() {
    let cum = vec![3, 3, 7, 8];
    assert_eq!(sample_cdf(&cum, 0), 0);
    assert_eq!(sample_cdf(&cum, 2), 0);
    assert_eq!(sample_cdf(&cum, 3), 2);
    assert_eq!(sample_cdf(&cum, 6), 2);
    assert_eq!(sample_cdf(&cum, 7), 3);
}

#[test]
fn importance_map_draws_weighted_pixels() {
    assert!(ImportanceMap::new(&vec![1, 2, 3], 2, 2).is_none());
    assert!(ImportanceMap::new(&vec![0, 0, 0, 0], 2, 2).is_none());
    assert!(ImportanceMap::new(&vec![], 0, 0).is_none());
    let only = ImportanceMap::new(&vec![0, 0, 0, 0, 0, 9], 3, 2).unwrap();
    for _ in 0..50 {
        assert_eq!(only.sample(), (2, 1));
    }
    let m = ImportanceMap::new(&vec![1, 0, 0, 1], 2, 2).unwrap();
    assert_eq!(m.pixel_for(0), (0, 0));
    assert_eq!(m.pixel_for(1), (1, 1));
    let mut seen = [false; 2];
    for _ in 0..200 {
        let p = m.sample();
        assert!(p == (0, 0) || p == (1, 1));
        seen[p.0 as usize] = true;
    }
    assert!(seen[0] && seen[1]);
}

#[test]
fn small_enums_and_loader() {
    assert_ne!(Sampler::Nearest, Sampler::Bilinear);
    assert_ne!(WrapMode::Clamp, WrapMode::Mirror);
    assert_eq!(ApertureShape::Hexagon, ApertureShape::Hexagon);
    hdr_image_loader(String::from("sky.hdr"));
}

#[test]
fn mixture_members_and_draws() {
    assert_eq!(mixture_members(2, true), vec![Member::Light(0), Member::Light(1), Member::Material]);
    assert_eq!(mixture_members(2, false), vec![Member::Light(0), Member::Light(1)]);
    assert_eq!(mixture_members(0, true), vec![Member::Material]);
    assert!(mixture_members(0, false).is_empty());
    for _ in 0..20 {
        assert_eq!(pick_member(&vec![Member::Material]), Member::Material);
    }
    let members = mixture_members(1, true);
    let mut lights = 0;
    for _ in 0..400 {
        if pick_member(&members) == Member::Light(0) {
            lights += 1;
        }
    }
    assert!(lights > 100 && lights < 300);
}

#[test]
fn delta_tracking_steps() {
    let smoke = NonUniformMedium::new(AABox::new(Vec3::new(-2, -2, -2), Vec3::new(2, 2, 2), 0), 1000, 1);
    let ray = Ray::new(Vec3::new(0, 0, 10), Vec3::new(0, 0, -1));
    let (a, b) = smoke.span(&ray, Param::new(0, 1), Param::far()).unwrap();
    assert_eq!((a.num, b.num), (8, 12));
    assert_eq!(smoke.advance(a, b, 0, 1), Tracking::Probe(1));
    assert_eq!(smoke.advance(a, b, 1, 3), Tracking::Probe(4));
    assert_eq!(smoke.advance(a, b, 4, 1), Tracking::Pass);
    assert!(smoke.keeps(500, 0));
    assert!(smoke.keeps(500, 0x7fff_0000));
    assert!(!smoke.keeps(500, 0x8000_0000));
    assert!(!smoke.keeps(0, 0));
    for _ in 0..50 {
        assert!(smoke.probe(1000));
        assert!(smoke.probe(4000));
        assert!(!smoke.probe(0));
    }
    let b = smoke.bounding_box().unwrap();
    assert_eq!((b.min.x, b.max.x), (-2, 2));
}

#[test]
fn medium_hit_records_interior_point() {
    let fog = ConstantMedium::new(AABox::new(Vec3::new(-2, -2, -2), Vec3::new(2, 2, 2), 0), 655, 7);
    let ray = Ray::new(Vec3::new(0, 0, 10), Vec3::new(0, 0, -1));
    let h = fog.hit_at(&ray, Param::new(1, 1000), Param::far(), 3).unwrap();
    assert_eq!((h.t.num, h.t.den), (11, 1));
    assert_eq!((h.p.x, h.p.y, h.p.z, h.p.den), (0, 0, -1, 1));
    assert_eq!(h.material, 7);
    assert!(fog.hit_at(&ray, Param::new(1, 1000), Param::far(), 5).is_none());
    let smoke = NonUniformMedium::new(AABox::new(Vec3::new(-2, -2, -2), Vec3::new(2, 2, 2), 0), 1000, 8);
    let h = smoke.hit_at(&ray, Param::new(0, 1), Param::far(), 1).unwrap();
    assert_eq!((h.p.z, h.material), (1, 8));
}

#[test]
fn medium_behind_the_ray_is_missed() {
    let fog = ConstantMedium::new(AABox::new(Vec3::new(-2, -2, -2), Vec3::new(2, 2, 2), 0), 655, 1);
    let away = Ray::new(Vec3::new(0, 0, -10), Vec3::new(0, 0, -1));
    assert!(fog.span(&away, Param::new(-20, 1), Param::far()).is_none());
    assert!(fog.hit_at(&away, Param::new(-20, 1), Param::far(), 0).is_none());
}
